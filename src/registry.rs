//! The registry of all resolved objects of a schema, keyed by fully-qualified name.
use vstd::prelude::*;

use crate::attrs::{attr_error, attr_text, order_key, order_of, raw_attrs_view};
use crate::error::SchemaError;
use crate::objects::{
    enum_object_error, enum_object_ok, is_enum_object, is_struct_object, struct_object_error,
    struct_object_ok, Object, ObjectKind,
};
use crate::raw::{RawEnum, RawObject, RawSchema};
use crate::sort::{is_stable_order, lex_before, sort_by_keys};
use crate::text::{is_prefix_of, starts_with, str_eq};
use crate::types::wrapper_prefix;

verus! {

/// The raw objects that become objects: all but the synthetic scalar wrappers.
pub open spec fn kept_objects(objs: Seq<RawObject>) -> Seq<RawObject>
    decreases objs.len(),
{
    if objs.len() == 0 {
        Seq::empty()
    } else if is_prefix_of(wrapper_prefix(), objs.last().name@) {
        kept_objects(objs.drop_last())
    } else {
        kept_objects(objs.drop_last()).push(objs.last())
    }
}

/// Name and attributes of every declaration that becomes an object: the enums, then the kept
/// objects, in schema order.
pub open spec fn declarations(schema: RawSchema) -> Seq<(Seq<char>, Seq<(Seq<char>, Option<Seq<char>>)>)> {
    schema.enums@.map_values(|x: RawEnum| (x.name@, raw_attrs_view(x.attributes)))
        + kept_objects(schema.objects@).map_values(
        |x: RawObject| (x.name@, raw_attrs_view(x.attributes)),
    )
}

/// Every enum and kept object of `schema` resolves, and each has an `order`.
pub open spec fn schema_ok(schema: RawSchema) -> bool {
    let enums = schema.enums@;
    let objs = schema.objects@;
    let kept = kept_objects(objs);
    let decls = declarations(schema);
    &&& forall|i: int| 0 <= i < enums.len() ==> enum_object_ok(enums, objs, #[trigger] enums[i])
    &&& forall|i: int| 0 <= i < kept.len() ==> struct_object_ok(enums, objs, #[trigger] kept[i])
    &&& forall|i: int| 0 <= i < decls.len() ==> order_of((#[trigger] decls[i]).1) is Some
}

/// `e` is the error that resolving `schema` gives: in this order, that of the first enum that
/// does not resolve, that of the first kept object that does not resolve, the missing or
/// invalid `order` of the first declaration without one.
pub open spec fn schema_error(e: SchemaError, schema: RawSchema) -> bool {
    let enums = schema.enums@;
    let objs = schema.objects@;
    let kept = kept_objects(objs);
    let decls = declarations(schema);
    if exists|i: int| 0 <= i < enums.len() && !enum_object_ok(enums, objs, #[trigger] enums[i]) {
        exists|i: int|
            0 <= i < enums.len() && !enum_object_ok(enums, objs, #[trigger] enums[i]) && (forall|
                j: int,
            | 0 <= j < i ==> enum_object_ok(enums, objs, #[trigger] enums[j])) && enum_object_error(
                e,
                enums,
                objs,
                enums[i],
            )
    } else if exists|i: int|
        0 <= i < kept.len() && !struct_object_ok(enums, objs, #[trigger] kept[i]) {
        exists|i: int|
            0 <= i < kept.len() && !struct_object_ok(enums, objs, #[trigger] kept[i]) && (forall|
                j: int,
            | 0 <= j < i ==> struct_object_ok(enums, objs, #[trigger] kept[j])) && struct_object_error(
                e,
                enums,
                objs,
                kept[i],
            )
    } else {
        exists|i: int|
            0 <= i < decls.len() && order_of((#[trigger] decls[i]).1) is None && (forall|j: int|
                0 <= j < i ==> order_of((#[trigger] decls[j]).1) is Some) && attr_error(
                e,
                decls[i].0,
                decls[i].1,
                order_key(),
            )
    }
}

/// `reg` holds the resolved enums of `schema`, then its resolved kept objects, in schema order.
pub open spec fn is_registry_of(reg: Seq<Object>, schema: RawSchema) -> bool {
    let enums = schema.enums@;
    let objs = schema.objects@;
    let kept = kept_objects(objs);
    &&& reg.len() == enums.len() + kept.len()
    &&& forall|i: int|
        0 <= i < enums.len() ==> is_enum_object(#[trigger] reg[i], enums, objs, enums[i])
    &&& forall|i: int|
        0 <= i < kept.len() ==> is_struct_object(
            #[trigger] reg[enums.len() + i],
            enums,
            objs,
            kept[i],
        )
}

/// Index of the first object named `key`.
pub open spec fn lookup(reg: Seq<Object>, key: Seq<char>) -> Option<int>
    decreases reg.len(),
{
    if reg.len() == 0 {
        None
    } else {
        match lookup(reg.drop_last(), key) {
            Some(i) => Some(i),
            None => if reg.last().fqname@ == key {
                Some(reg.len() - 1)
            } else {
                None
            },
        }
    }
}

/// Indices of the objects of kind `kind` (of every kind for `None`), in registry order.
pub open spec fn selected(reg: Seq<Object>, kind: Option<ObjectKind>) -> Seq<int>
    decreases reg.len(),
{
    if reg.len() == 0 {
        Seq::empty()
    } else if kind matches Some(k) && reg.last().kind != k {
        selected(reg.drop_last(), kind)
    } else {
        selected(reg.drop_last(), kind).push(reg.len() - 1)
    }
}

/// The `order` of each object.
pub open spec fn orders(reg: Seq<Object>, idx: Seq<int>) -> Seq<u32> {
    idx.map_values(|i: int| order_of(reg[i].attrs@)->0)
}

/// `r` lists the objects of kind `kind` by ascending `order`, equal orders in registry order.
pub open spec fn is_ordered_selection(reg: Seq<Object>, kind: Option<ObjectKind>, r: Seq<&Object>) -> bool {
    let sel = selected(reg, kind);
    &&& r.len() == sel.len()
    &&& exists|p: Seq<int>, q: Seq<int>|
        #![trigger is_stable_order(p, q, orders(reg, sel))]
        is_stable_order(p, q, orders(reg, sel)) && forall|i: int|
            0 <= i < r.len() ==> *r[i] == reg[sel[#[trigger] p[i]]]
}

/// The result of resolving a schema: every struct, enum and union, by fully-qualified name.
#[derive(Debug)]
pub struct Objects {
    objects: Vec<Object>,
}

impl View for Objects {
    type V = Seq<Object>;

    closed spec fn view(&self) -> Seq<Object> {
        self.objects@
    }
}

impl Objects {
    /// Every object has a valid `order`.
    #[verifier::type_invariant]
    spec fn inv(&self) -> bool {
        forall|i: int| 0 <= i < self.objects@.len() ==> order_of((#[trigger] self.objects@[i]).attrs@) is Some
    }

    /// All resolved objects, in registry order.
    pub fn objects(&self) -> (r: &Vec<Object>)
        ensures
            r@ == self@,
    {
        &self.objects
    }
}

proof fn lemma_kept_objects_prefix(s: Seq<RawObject>, i: int)
    requires
        0 <= i <= s.len(),
    ensures
        kept_objects(s.take(i)).len() <= kept_objects(s).len(),
        kept_objects(s).take(kept_objects(s.take(i)).len() as int) == kept_objects(s.take(i)),
    decreases s.len(),
{
    if i == s.len() {
        assert(s.take(i) =~= s);
        assert(kept_objects(s).take(kept_objects(s).len() as int) =~= kept_objects(s));
    } else {
        assert(s.drop_last().take(i) =~= s.take(i));
        lemma_kept_objects_prefix(s.drop_last(), i);
        let k = kept_objects(s.take(i));
        let d = kept_objects(s.drop_last());
        if !is_prefix_of(wrapper_prefix(), s.last().name@) {
            assert(d.push(s.last()).take(k.len() as int) =~= d.take(k.len() as int));
        }
    }
}

impl Objects {
    /// Runs the semantic pass over a raw schema: resolves every enum, then every object but the
    /// synthetic scalar wrappers, and requires an `order` of each.
    #[verifier::loop_isolation(false)]
    pub fn from_raw_schema(schema: &RawSchema) -> (r: Result<Objects, SchemaError>)
        ensures
            match r {
                Ok(reg) => schema_ok(*schema) && is_registry_of(reg@, *schema),
                Err(e) => !schema_ok(*schema) && schema_error(e, *schema),
            },
    {
        let enums = &schema.enums;
        let objs = &schema.objects;
        let ghost kept = kept_objects(objs@);
        let ghost decls = declarations(*schema);
        let mut resolved: Vec<Object> = Vec::new();
        let mut i: usize = 0;
        while i < enums.len()
            invariant
                i <= enums.len(),
                resolved.len() == i,
                forall|k: int| 0 <= k < i ==> enum_object_ok(enums@, objs@, #[trigger] enums@[k]),
                forall|k: int|
                    0 <= k < i ==> is_enum_object(#[trigger] resolved@[k], enums@, objs@, enums@[k]),
            decreases enums.len() - i,
        {
            match Object::from_raw_enum(enums, objs, &enums[i]) {
                Ok(o) => {
                    resolved.push(o);
                },
                Err(e) => {
                    return Err(e);
                },
            }
            i = i + 1;
        }
        let ne = enums.len();
        let mut j: usize = 0;
        while j < objs.len()
            invariant
                j <= objs.len(),
                resolved.len() == ne + kept_objects(objs@.take(j as int)).len(),
                forall|k: int| 0 <= k < ne ==> enum_object_ok(enums@, objs@, #[trigger] enums@[k]),
                forall|k: int|
                    0 <= k < ne ==> is_enum_object(#[trigger] resolved@[k], enums@, objs@, enums@[k]),
                forall|k: int|
                    0 <= k < kept_objects(objs@.take(j as int)).len() ==> struct_object_ok(
                        enums@,
                        objs@,
                        #[trigger] kept_objects(objs@.take(j as int))[k],
                    ) && is_struct_object(
                        resolved@[ne + k],
                        enums@,
                        objs@,
                        kept_objects(objs@.take(j as int))[k],
                    ),
            decreases objs.len() - j,
        {
            let ghost pre = kept_objects(objs@.take(j as int));
            assert(objs@.take(j + 1).drop_last() =~= objs@.take(j as int));
            proof {
                lemma_kept_objects_prefix(objs@, j + 1);
            }
            let ghost post = kept_objects(objs@.take(j + 1));
            if !starts_with(objs[j].name.as_str(), "fbs.scalars.") {
                assert(post == pre.push(objs@[j as int]));
                match Object::from_raw_object(enums, objs, &objs[j]) {
                    Ok(o) => {
                        let ghost before = resolved@;
                        resolved.push(o);
                        assert forall|k: int| 0 <= k < post.len() implies struct_object_ok(
                            enums@,
                            objs@,
                            #[trigger] post[k],
                        ) && is_struct_object(resolved@[ne + k], enums@, objs@, post[k]) by {
                            if k < pre.len() {
                                assert(post[k] == pre[k]);
                                assert(resolved@[ne + k] == before[ne + k]);
                            }
                        }
                    },
                    Err(e) => {
                        assert(kept.take(post.len() as int) == post);
                        assert(kept.take(post.len() as int)[pre.len() as int] == kept[pre.len() as int]);
                        assert forall|t: int| 0 <= t < pre.len() implies struct_object_ok(
                            enums@,
                            objs@,
                            #[trigger] kept[t],
                        ) by {
                            assert(kept.take(post.len() as int)[t] == kept[t]);
                            assert(kept[t] == pre[t]);
                        }
                        return Err(e);
                    },
                }
            } else {
                assert(post == pre);
            }
            j = j + 1;
        }
        assert(objs@.take(objs.len() as int) =~= objs@);
        assert forall|k: int| 0 <= k < resolved.len() implies (#[trigger] resolved@[k]).fqname@
            == decls[k].0 && resolved@[k].attrs@ == decls[k].1 by {
            if k < ne {
                assert(is_enum_object(resolved@[k], enums@, objs@, enums@[k]));
            } else {
                assert(is_struct_object(resolved@[ne + (k - ne)], enums@, objs@, kept[k - ne]));
            }
        }
        let mut k: usize = 0;
        while k < resolved.len()
            invariant
                k <= resolved.len(),
                forall|t: int| 0 <= t < k ==> order_of((#[trigger] decls[t]).1) is Some,
            decreases resolved.len() - k,
        {
            match resolved[k].order() {
                Ok(_) => {},
                Err(e) => {
                    return Err(e);
                },
            }
            k = k + 1;
        }
        let reg = Objects { objects: resolved };
        assert(is_registry_of(reg@, *schema)) by {
            assert forall|t: int| 0 <= t < kept.len() implies is_struct_object(
                #[trigger] reg@[enums@.len() + t],
                enums@,
                objs@,
                kept[t],
            ) by {}
        }
        Ok(reg)
    }
}

proof fn lemma_lookup_prefix(reg: Seq<Object>, key: Seq<char>, n: int)
    requires
        0 <= n <= reg.len(),
        lookup(reg.take(n), key) is Some,
    ensures
        lookup(reg, key) == lookup(reg.take(n), key),
    decreases reg.len(),
{
    if n < reg.len() {
        assert(reg.drop_last().take(n) =~= reg.take(n));
        lemma_lookup_prefix(reg.drop_last(), key, n);
    } else {
        assert(reg.take(n) =~= reg);
    }
}

proof fn lemma_lookup_found(reg: Seq<Object>, key: Seq<char>)
    ensures
        lookup(reg, key) matches Some(i) ==> 0 <= i < reg.len() && reg[i].fqname@ == key,
        lookup(reg, key) is None ==> forall|i: int| 0 <= i < reg.len() ==> (#[trigger] reg[i]).fqname@ != key,
    decreases reg.len(),
{
    if reg.len() > 0 {
        lemma_lookup_found(reg.drop_last(), key);
        assert forall|i: int| 0 <= i < reg.len() - 1 implies (#[trigger] reg[i]) == reg.drop_last()[i] by {}
    }
}

proof fn lemma_selected(reg: Seq<Object>, kind: Option<ObjectKind>)
    ensures
        forall|t: int| 0 <= t < selected(reg, kind).len() ==> 0 <= #[trigger] selected(reg, kind)[t] < reg.len(),
        forall|t: int, u: int| 0 <= t < u < selected(reg, kind).len() ==> #[trigger] selected(reg, kind)[t] < #[trigger] selected(reg, kind)[u],
        forall|a: int| 0 <= a < reg.len() && (kind matches Some(k) ==> (#[trigger] reg[a]).kind == k)
            ==> exists|t: int| 0 <= t < selected(reg, kind).len() && #[trigger] selected(reg, kind)[t] == a,
    decreases reg.len(),
{
    if reg.len() > 0 {
        let d = reg.drop_last();
        lemma_selected(d, kind);
        let sd = selected(d, kind);
        let s = selected(reg, kind);
        assert forall|a: int| 0 <= a < reg.len() && (kind matches Some(k) ==> (#[trigger] reg[a]).kind == k)
            implies exists|t: int| 0 <= t < s.len() && #[trigger] s[t] == a by {
            if a < reg.len() - 1 {
                assert(d[a] == reg[a]);
                let t = choose|t: int| 0 <= t < sd.len() && #[trigger] sd[t] == a;
                assert(s[t] == a);
            } else {
                assert(s[sd.len() as int] == a);
            }
        }
    }
}

impl Objects {
    /// The object named `fqname`.
    pub fn get(&self, fqname: &str) -> (r: Result<&Object, SchemaError>)
        ensures
            match lookup(self@, fqname@) {
                Some(i) => r matches Ok(o) && *o == self@[i],
                None => r matches Err(SchemaError::UnknownReference { fqname: x }) && x@ == fqname@,
            },
    {
        let n = self.objects.len();
        let mut i: usize = 0;
        assert(self@.take(0) =~= Seq::<Object>::empty());
        while i < n
            invariant
                n == self@.len(),
                i <= n,
                lookup(self@.take(i as int), fqname@) is None,
            decreases n - i,
        {
            assert(self@.take(i + 1).drop_last() =~= self@.take(i as int));
            if str_eq(self.objects[i].fqname.as_str(), fqname) {
                proof {
                    lemma_lookup_prefix(self@, fqname@, i + 1);
                }
                return Ok(&self.objects[i]);
            }
            i = i + 1;
        }
        assert(self@.take(n as int) =~= self@);
        Err(SchemaError::UnknownReference { fqname: fqname.to_owned() })
    }

    /// The objects of kind `kind` (all objects for `None`) by ascending `order`; equal orders
    /// keep registry order.
    pub fn ordered_objects(&self, kind: Option<ObjectKind>) -> (r: Vec<&Object>)
        ensures
            is_ordered_selection(self@, kind, r@),
            forall|i: int| 0 <= i < self@.len() ==> order_of((#[trigger] self@[i]).attrs@) is Some,
    {
        proof {
            use_type_invariant(self);
        }
        let n = self.objects.len();
        let mut refs: Vec<&Object> = Vec::new();
        let mut keys: Vec<u32> = Vec::new();
        let mut i: usize = 0;
        assert(self@.take(0) =~= Seq::<Object>::empty());
        while i < n
            invariant
                n == self@.len(),
                i <= n,
                forall|t: int| 0 <= t < n ==> order_of((#[trigger] self@[t]).attrs@) is Some,
                refs.len() == selected(self@.take(i as int), kind).len(),
                keys@ == orders(self@, selected(self@.take(i as int), kind)),
                forall|t: int| 0 <= t < refs.len() ==> *(#[trigger] refs@[t]) == self@[selected(self@.take(i as int), kind)[t]],
            decreases n - i,
        {
            let ghost pre = selected(self@.take(i as int), kind);
            assert(self@.take(i + 1).drop_last() =~= self@.take(i as int));
            let o = &self.objects[i];
            let take = match kind {
                Some(k) => o.kind == k,
                None => true,
            };
            if take {
                let v = match o.order() {
                    Ok(v) => v,
                    Err(_) => {
                        assert(false);
                        0
                    },
                };
                refs.push(o);
                keys.push(v);
                assert(selected(self@.take(i + 1), kind) == pre.push(i as int));
                assert(keys@ =~= orders(self@, pre.push(i as int)));
            } else {
                assert(selected(self@.take(i + 1), kind) == pre);
            }
            i = i + 1;
        }
        assert(self@.take(n as int) =~= self@);
        let ghost sel = selected(self@, kind);
        let ghost unsorted = refs@;
        let r = sort_by_keys(refs, &keys);
        proof {
            let (p, q) = choose|p: Seq<int>, q: Seq<int>|
                is_stable_order(p, q, keys@) && forall|i: int|
                    0 <= i < r@.len() ==> r@[i] == unsorted[#[trigger] p[i]];
            assert forall|i: int| 0 <= i < r@.len() implies *r@[i] == self@[sel[#[trigger] p[i]]] by {
                assert(r@[i] == unsorted[p[i]]);
            }
        }
        r
    }

    /// The datatypes by ascending `order`.
    pub fn ordered_datatypes(&self) -> (r: Vec<&Object>)
        ensures
            is_ordered_selection(self@, Some(ObjectKind::Datatype), r@),
    {
        self.ordered_objects(Some(ObjectKind::Datatype))
    }

    /// The components by ascending `order`.
    pub fn ordered_components(&self) -> (r: Vec<&Object>)
        ensures
            is_ordered_selection(self@, Some(ObjectKind::Component), r@),
    {
        self.ordered_objects(Some(ObjectKind::Component))
    }

    /// The archetypes by ascending `order`.
    pub fn ordered_archetypes(&self) -> (r: Vec<&Object>)
        ensures
            is_ordered_selection(self@, Some(ObjectKind::Archetype), r@),
    {
        self.ordered_objects(Some(ObjectKind::Archetype))
    }
}

/// Looking up the fully-qualified name of any object of the registry finds an object with that
/// very name.
pub proof fn lemma_get_round_trip(reg: &Objects, i: int)
    requires
        0 <= i < reg@.len(),
    ensures
        lookup(reg@, reg@[i].fqname@) matches Some(j) && 0 <= j < reg@.len() && reg@[j].fqname@
            == reg@[i].fqname@,
{
    lemma_lookup_found(reg@, reg@[i].fqname@);
}

/// In the objects of one kind ordered by `order`, an object of that kind with a smaller
/// `order` comes before one with a larger `order`.
pub proof fn lemma_ordered_respects_order(
    reg: &Objects,
    kind: ObjectKind,
    r: Seq<&Object>,
    a: int,
    b: int,
)
    requires
        is_ordered_selection(reg@, Some(kind), r),
        0 <= a < reg@.len(),
        0 <= b < reg@.len(),
        reg@[a].kind == kind,
        reg@[b].kind == kind,
        order_of(reg@[a].attrs@) is Some,
        order_of(reg@[b].attrs@) is Some,
        order_of(reg@[a].attrs@)->0 < order_of(reg@[b].attrs@)->0,
    ensures
        exists|i: int, j: int| 0 <= i < j < r.len() && *r[i] == reg@[a] && *r[j] == reg@[b],
{
    let sel = selected(reg@, Some(kind));
    let keys = orders(reg@, sel);
    lemma_selected(reg@, Some(kind));
    let ta = choose|t: int| 0 <= t < sel.len() && #[trigger] sel[t] == a;
    let tb = choose|t: int| 0 <= t < sel.len() && #[trigger] sel[t] == b;
    let (p, q) = choose|p: Seq<int>, q: Seq<int>|
        is_stable_order(p, q, keys) && forall|i: int|
            0 <= i < r.len() ==> *r[i] == reg@[sel[#[trigger] p[i]]];
    let i = q[ta];
    let j = q[tb];
    assert(p[i] == ta && p[j] == tb);
    assert(*r[i] == reg@[a]);
    assert(*r[j] == reg@[b]);
    assert(keys[ta] < keys[tb]);
    if j < i {
        assert(lex_before(keys, p[j], p[i]));
    }
    assert(i != j);
}

/// A declaration without an `order` attribute makes the resolution of its schema fail.
pub proof fn lemma_missing_order_fails(schema: RawSchema, i: int)
    requires
        0 <= i < declarations(schema).len(),
        attr_text(declarations(schema)[i].1, order_key()) is None,
    ensures
        !schema_ok(schema),
{
    assert(order_of(declarations(schema)[i].1) is None);
}

/// Where everything else of a schema resolves, the first declaration that lacks an `order`
/// attribute makes its resolution fail with `MissingRequiredAttribute`.
pub proof fn lemma_missing_order_error(schema: RawSchema, i: int, e: SchemaError)
    requires
        forall|k: int|
            0 <= k < schema.enums@.len() ==> enum_object_ok(
                schema.enums@,
                schema.objects@,
                #[trigger] schema.enums@[k],
            ),
        forall|k: int|
            0 <= k < kept_objects(schema.objects@).len() ==> struct_object_ok(
                schema.enums@,
                schema.objects@,
                #[trigger] kept_objects(schema.objects@)[k],
            ),
        0 <= i < declarations(schema).len(),
        attr_text(declarations(schema)[i].1, order_key()) is None,
        forall|j: int| 0 <= j < i ==> order_of((#[trigger] declarations(schema)[j]).1) is Some,
        schema_error(e, schema),
    ensures
        e is MissingRequiredAttribute,
{
    let decls = declarations(schema);
    let k = choose|k: int|
        0 <= k < decls.len() && order_of((#[trigger] decls[k]).1) is None && (forall|j: int|
            0 <= j < k ==> order_of((#[trigger] decls[j]).1) is Some) && attr_error(
            e,
            decls[k].0,
            decls[k].1,
            order_key(),
        );
    if k < i {
        assert(order_of(decls[k].1) is Some);
    } else if k > i {
        assert(order_of(decls[i].1) is Some);
    }
}

} // verus!
