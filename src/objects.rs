//! Resolved objects (structs, enums, unions) and their fields.
use vstd::prelude::*;

use crate::attrs::{
    attr_error, get_outcome, order_key, order_of, raw_attrs_view, try_get_outcome, AttrValue,
    Attributes,
};
use crate::docs::{raw_doc_lines, Docs};
use crate::error::SchemaError;
use crate::raw::{BaseType, RawEnum, RawEnumVal, RawField, RawObject};
use crate::sort::{is_stable_order, sort_by_keys};
use crate::text::{is_prefix_of, split_qualified, split_qualified_spec, starts_with};
use crate::types::{elem_spec, type_spec, ElementType, ElementTypeV, Type, TypeV};

verus! {

/// The domain role of an object, given by its package.
#[derive(Clone, Copy, Debug, PartialEq, Eq, Structural)]
pub enum ObjectKind {
    Datatype,
    Component,
    Archetype,
}

/// The kind that the package `pkg` belongs to.
pub open spec fn kind_of(pkg: Seq<char>) -> Option<ObjectKind> {
    if is_prefix_of("rerun.datatypes"@, pkg) {
        Some(ObjectKind::Datatype)
    } else if is_prefix_of("rerun.components"@, pkg) {
        Some(ObjectKind::Component)
    } else if is_prefix_of("rerun.archetypes"@, pkg) {
        Some(ObjectKind::Archetype)
    } else {
        None
    }
}

impl ObjectKind {
    /// Classifies a package by its prefix.
    pub fn from_pkg_name(pkg_name: &str) -> (r: Result<ObjectKind, SchemaError>)
        ensures
            match kind_of(pkg_name@) {
                Some(k) => r matches Ok(x) && x == k,
                None => r matches Err(SchemaError::UnknownPackageClassification { pkg_name: p })
                    && p@ == pkg_name@,
            },
    {
        if starts_with(pkg_name, "rerun.datatypes") {
            Ok(ObjectKind::Datatype)
        } else if starts_with(pkg_name, "rerun.components") {
            Ok(ObjectKind::Component)
        } else if starts_with(pkg_name, "rerun.archetypes") {
            Ok(ObjectKind::Archetype)
        } else {
            Err(SchemaError::UnknownPackageClassification { pkg_name: pkg_name.to_owned() })
        }
    }
}

/// `owner.name`.
pub open spec fn qualify(owner: Seq<char>, name: Seq<char>) -> Seq<char> {
    owner + "."@ + name
}

/// Joins an owner's fully-qualified name and a member name.
fn qualified(owner: &String, name: &String) -> (r: String)
    ensures
        r@ == qualify(owner@, name@),
{
    let mut s = owner.clone();
    s.append(".");
    s.append(name.as_str());
    s
}

/// A resolved struct member, enum value or union arm.
#[derive(Clone, Debug)]
pub struct ObjectField {
    /// File of the owner's declaration.
    pub filepath: String,
    /// `<owner fqname>.<name>`.
    pub fqname: String,
    /// Everything of `fqname` before its last `'.'`.
    pub pkg_name: String,
    /// Everything of `fqname` after its last `'.'`.
    pub name: String,
    pub docs: Docs,
    pub typ: Type,
    pub attrs: Attributes,
    /// Always set for the members of fixed-layout structs and for enum and union values.
    pub required: bool,
    pub deprecated: bool,
}

impl ObjectField {
    /// The field has these parts.
    pub open spec fn has_parts(
        &self,
        fqname: Seq<char>,
        filepath: Seq<char>,
        docs: Option<Vec<String>>,
        typ: TypeV,
        attrs: Option<Vec<crate::raw::RawKeyValue>>,
        required: bool,
        deprecated: bool,
    ) -> bool {
        &&& self.filepath@ == filepath
        &&& self.fqname@ == fqname
        &&& (self.pkg_name@, self.name@) == split_qualified_spec(fqname)
        &&& self.docs.describes(raw_doc_lines(docs))
        &&& self.typ@ == typ
        &&& self.attrs@ == raw_attrs_view(attrs)
        &&& self.required == required
        &&& self.deprecated == deprecated
    }
}

/// The member `field` of `obj` can be resolved: `obj` has a declaration file and the field's
/// type is representable.
pub open spec fn struct_field_ok(
    enums: Seq<RawEnum>,
    objs: Seq<RawObject>,
    obj: RawObject,
    field: RawField,
) -> bool {
    obj.declaration_file is Some && type_spec(enums, objs, field.typ) is Some
}

/// `f` is the resolution of the member `field` of `obj`.
pub open spec fn is_struct_field(
    f: ObjectField,
    enums: Seq<RawEnum>,
    objs: Seq<RawObject>,
    obj: RawObject,
    field: RawField,
) -> bool {
    f.has_parts(
        qualify(obj.name@, field.name@),
        obj.declaration_file->0@,
        field.documentation,
        type_spec(enums, objs, field.typ)->0,
        field.attributes,
        field.required || obj.is_struct,
        field.deprecated,
    )
}

/// The value `val` of `enm` can be resolved: `enm` has a declaration file, and `val` a payload
/// type that is representable.
pub open spec fn enum_value_ok(
    enums: Seq<RawEnum>,
    objs: Seq<RawObject>,
    enm: RawEnum,
    val: RawEnumVal,
) -> bool {
    enm.declaration_file is Some && val.union_type is Some && type_spec(
        enums,
        objs,
        val.union_type->0,
    ) is Some
}

/// `f` is the resolution of the value `val` of `enm`.
pub open spec fn is_enum_value(
    f: ObjectField,
    enums: Seq<RawEnum>,
    objs: Seq<RawObject>,
    enm: RawEnum,
    val: RawEnumVal,
) -> bool {
    f.has_parts(
        qualify(enm.name@, val.name@),
        enm.declaration_file->0@,
        val.documentation,
        type_spec(enums, objs, val.union_type->0)->0,
        val.attributes,
        true,
        false,
    )
}

impl ObjectField {
    /// Resolves a member of a struct or table.
    pub fn from_raw_object_field(
        enums: &Vec<RawEnum>,
        objs: &Vec<RawObject>,
        obj: &RawObject,
        field: &RawField,
    ) -> (r: Result<ObjectField, SchemaError>)
        ensures
            if struct_field_ok(enums@, objs@, *obj, *field) {
                r matches Ok(f) && is_struct_field(f, enums@, objs@, *obj, *field)
            } else {
                r matches Err(SchemaError::MalformedDeclaration { fqname: x }) && x@ == qualify(
                    obj.name@,
                    field.name@,
                )
            },
    {
        let fqname = qualified(&obj.name, &field.name);
        let (pkg_name, name) = split_qualified(fqname.as_str());
        let filepath = match &obj.declaration_file {
            Some(d) => d.clone(),
            None => {
                return Err(SchemaError::MalformedDeclaration { fqname });
            },
        };
        let docs = Docs::from_raw_docs(&field.documentation);
        let typ = match Type::from_raw_type(enums, objs, field.typ) {
            Some(t) => t,
            None => {
                return Err(SchemaError::MalformedDeclaration { fqname });
            },
        };
        let attrs = Attributes::from_raw_attrs(&field.attributes);
        let required = field.required || obj.is_struct;
        let deprecated = field.deprecated;
        Ok(ObjectField { filepath, fqname, pkg_name, name, docs, typ, attrs, required, deprecated })
    }

    /// Resolves a value of an enum or union.
    pub fn from_raw_enum_value(
        enums: &Vec<RawEnum>,
        objs: &Vec<RawObject>,
        enm: &RawEnum,
        val: &RawEnumVal,
    ) -> (r: Result<ObjectField, SchemaError>)
        ensures
            if enum_value_ok(enums@, objs@, *enm, *val) {
                r matches Ok(f) && is_enum_value(f, enums@, objs@, *enm, *val)
            } else {
                r matches Err(SchemaError::MalformedDeclaration { fqname: x }) && x@ == qualify(
                    enm.name@,
                    val.name@,
                )
            },
    {
        let fqname = qualified(&enm.name, &val.name);
        let (pkg_name, name) = split_qualified(fqname.as_str());
        let filepath = match &enm.declaration_file {
            Some(d) => d.clone(),
            None => {
                return Err(SchemaError::MalformedDeclaration { fqname });
            },
        };
        let docs = Docs::from_raw_docs(&val.documentation);
        let typ = match val.union_type {
            Some(t) => match Type::from_raw_type(enums, objs, t) {
                Some(t) => t,
                None => {
                    return Err(SchemaError::MalformedDeclaration { fqname });
                },
            },
            None => {
                return Err(SchemaError::MalformedDeclaration { fqname });
            },
        };
        let attrs = Attributes::from_raw_attrs(&val.attributes);
        Ok(
            ObjectField {
                filepath,
                fqname,
                pkg_name,
                name,
                docs,
                typ,
                attrs,
                required: true,
                deprecated: false,
            },
        )
    }

    /// The mandatory `order` attribute.
    pub fn order(&self) -> (r: Result<u32, SchemaError>)
        ensures
            get_outcome(r, self.fqname@, self.attrs@, order_key()),
    {
        self.attrs.get(self.fqname.as_str(), "order")
    }

    /// The attribute `name`, parsed into a `T`.
    pub fn get_attr<T: AttrValue>(&self, name: &str) -> (r: Result<T, SchemaError>)
        ensures
            get_outcome(r, self.fqname@, self.attrs@, name@),
    {
        self.attrs.get(self.fqname.as_str(), name)
    }

    /// The attribute `name`, parsed into a `T`, if present.
    pub fn try_get_attr<T: AttrValue>(&self, name: &str) -> (r: Result<Option<T>, SchemaError>)
        ensures
            try_get_outcome(r, self.fqname@, self.attrs@, name@),
    {
        self.attrs.try_get(self.fqname.as_str(), name)
    }
}

/// What only structs or only unions have.
#[derive(Clone, Debug)]
pub enum ObjectSpecifics {
    Struct {},
    Union {
        /// `None` for a sum type whose arms carry payloads; the scalar type of the labels for
        /// an enumeration.
        utype: Option<ElementType>,
    },
}

/// A resolved struct, enum or union.
#[derive(Clone, Debug)]
pub struct Object {
    /// File of the declaration.
    pub filepath: String,
    /// Fully-qualified name, e.g. `rerun.components.Point2D`.
    pub fqname: String,
    /// Everything of `fqname` before its last `'.'`.
    pub pkg_name: String,
    /// Everything of `fqname` after its last `'.'`.
    pub name: String,
    pub docs: Docs,
    pub kind: ObjectKind,
    pub attrs: Attributes,
    /// Struct members or union and enum values; for structs in ascending `order`.
    pub fields: Vec<ObjectField>,
    pub specifics: ObjectSpecifics,
}

pub open spec fn opt_elem_view(e: Option<ElementType>) -> Option<ElementTypeV> {
    match e {
        Some(x) => Some(x@),
        None => None,
    }
}

/// The raw members that become fields: all but the union discriminants.
pub open spec fn kept_fields(fields: Seq<RawField>) -> Seq<RawField>
    decreases fields.len(),
{
    if fields.len() == 0 {
        Seq::empty()
    } else if fields.last().typ.base_type == BaseType::UType {
        kept_fields(fields.drop_last())
    } else {
        kept_fields(fields.drop_last()).push(fields.last())
    }
}

/// The raw values that become fields: those with a payload type other than `NoType`.
pub open spec fn kept_values(vals: Seq<RawEnumVal>) -> Seq<RawEnumVal>
    decreases vals.len(),
{
    if vals.len() == 0 {
        Seq::empty()
    } else if vals.last().union_type matches Some(t) && t.base_type != BaseType::NoType {
        kept_values(vals.drop_last()).push(vals.last())
    } else {
        kept_values(vals.drop_last())
    }
}

/// The `order` of each raw member.
pub open spec fn field_order_keys(kept: Seq<RawField>) -> Seq<u32> {
    kept.map_values(|f: RawField| order_of(raw_attrs_view(f.attributes))->0)
}

/// The underlying type of an enum: `Some(None)` for a union, `Some(Some(e))` for an
/// enumeration of scalar labels, `None` where it cannot be represented.
pub open spec fn utype_spec(objs: Seq<RawObject>, enm: RawEnum) -> Option<Option<ElementTypeV>> {
    let u = enm.underlying_type;
    if u.base_type == BaseType::UType {
        Some(None)
    } else {
        match elem_spec(objs, u, u.base_type) {
            Some(e) => Some(Some(e)),
            None => None,
        }
    }
}

impl Object {
    /// The identity, documentation, kind and attributes of the object come from a declaration
    /// named `fqname` with these parts.
    pub open spec fn has_header(
        &self,
        fqname: Seq<char>,
        filepath: Option<String>,
        docs: Option<Vec<String>>,
        attrs: Option<Vec<crate::raw::RawKeyValue>>,
    ) -> bool {
        &&& self.fqname@ == fqname
        &&& (self.pkg_name@, self.name@) == split_qualified_spec(fqname)
        &&& filepath matches Some(f) && self.filepath@ == f@
        &&& self.docs.describes(raw_doc_lines(docs))
        &&& kind_of(self.pkg_name@) == Some(self.kind)
        &&& self.attrs@ == raw_attrs_view(attrs)
    }
}

/// `obj` resolves: it has a declaration file and a known package, and each of its members
/// resolves and has an `order`.
pub open spec fn struct_object_ok(enums: Seq<RawEnum>, objs: Seq<RawObject>, obj: RawObject) -> bool {
    let kept = kept_fields(obj.fields@);
    &&& obj.declaration_file is Some
    &&& kind_of(split_qualified_spec(obj.name@).0) is Some
    &&& forall|i: int| 0 <= i < kept.len() ==> struct_field_ok(enums, objs, obj, #[trigger] kept[i])
    &&& forall|i: int|
        0 <= i < kept.len() ==> order_of(raw_attrs_view((#[trigger] kept[i]).attributes)) is Some
}

/// `o` is the resolution of `obj`: its fields are the resolved members, sorted stably by
/// their `order`.
pub open spec fn is_struct_object(
    o: Object,
    enums: Seq<RawEnum>,
    objs: Seq<RawObject>,
    obj: RawObject,
) -> bool {
    let kept = kept_fields(obj.fields@);
    &&& o.has_header(obj.name@, obj.declaration_file, obj.documentation, obj.attributes)
    &&& o.specifics matches ObjectSpecifics::Struct {  }
    &&& o.fields.len() == kept.len()
    &&& exists|p: Seq<int>, q: Seq<int>|
        #![trigger is_stable_order(p, q, field_order_keys(kept))]
        is_stable_order(p, q, field_order_keys(kept)) && forall|i: int|
            0 <= i < kept.len() ==> is_struct_field(
                #[trigger] o.fields@[i],
                enums,
                objs,
                obj,
                kept[p[i]],
            )
}

/// `e` is the error that resolving `obj` gives: in this order, a missing declaration file, an
/// unknown package, the first member that does not resolve, the first member without a valid
/// `order`.
pub open spec fn struct_object_error(
    e: SchemaError,
    enums: Seq<RawEnum>,
    objs: Seq<RawObject>,
    obj: RawObject,
) -> bool {
    let pkg = split_qualified_spec(obj.name@).0;
    let kept = kept_fields(obj.fields@);
    if obj.declaration_file is None {
        e matches SchemaError::MalformedDeclaration { fqname: x } && x@ == obj.name@
    } else if kind_of(pkg) is None {
        e matches SchemaError::UnknownPackageClassification { pkg_name: x } && x@ == pkg
    } else if exists|i: int|
        0 <= i < kept.len() && !struct_field_ok(enums, objs, obj, #[trigger] kept[i]) {
        exists|i: int|
            0 <= i < kept.len() && !struct_field_ok(enums, objs, obj, #[trigger] kept[i]) && (forall|
                j: int,
            | 0 <= j < i ==> struct_field_ok(enums, objs, obj, #[trigger] kept[j])) && (
            e matches SchemaError::MalformedDeclaration { fqname: x } && x@ == qualify(
                obj.name@,
                kept[i].name@,
            ))
    } else {
        exists|i: int|
            0 <= i < kept.len() && order_of(raw_attrs_view((#[trigger] kept[i]).attributes))
                is None && (forall|j: int|
                0 <= j < i ==> order_of(raw_attrs_view((#[trigger] kept[j]).attributes)) is Some)
                && attr_error(
                e,
                qualify(obj.name@, kept[i].name@),
                raw_attrs_view(kept[i].attributes),
                order_key(),
            )
    }
}

/// `enm` resolves: it has a declaration file, a known package, a representable underlying
/// type, and each of its kept values resolves.
pub open spec fn enum_object_ok(enums: Seq<RawEnum>, objs: Seq<RawObject>, enm: RawEnum) -> bool {
    let kept = kept_values(enm.values@);
    &&& enm.declaration_file is Some
    &&& kind_of(split_qualified_spec(enm.name@).0) is Some
    &&& utype_spec(objs, enm) is Some
    &&& forall|i: int| 0 <= i < kept.len() ==> enum_value_ok(enums, objs, enm, #[trigger] kept[i])
}

/// `o` is the resolution of `enm`: one field per kept value, in declaration order.
pub open spec fn is_enum_object(
    o: Object,
    enums: Seq<RawEnum>,
    objs: Seq<RawObject>,
    enm: RawEnum,
) -> bool {
    let kept = kept_values(enm.values@);
    &&& o.has_header(enm.name@, enm.declaration_file, enm.documentation, enm.attributes)
    &&& o.specifics matches ObjectSpecifics::Union { utype } && Some(opt_elem_view(utype))
        == utype_spec(objs, enm)
    &&& o.fields.len() == kept.len()
    &&& forall|i: int|
        0 <= i < kept.len() ==> is_enum_value(#[trigger] o.fields@[i], enums, objs, enm, kept[i])
}

/// `e` is the error that resolving `enm` gives: in this order, a missing declaration file, an
/// unknown package, an unrepresentable underlying type, the first value that does not resolve.
pub open spec fn enum_object_error(
    e: SchemaError,
    enums: Seq<RawEnum>,
    objs: Seq<RawObject>,
    enm: RawEnum,
) -> bool {
    let pkg = split_qualified_spec(enm.name@).0;
    let kept = kept_values(enm.values@);
    if enm.declaration_file is None {
        e matches SchemaError::MalformedDeclaration { fqname: x } && x@ == enm.name@
    } else if kind_of(pkg) is None {
        e matches SchemaError::UnknownPackageClassification { pkg_name: x } && x@ == pkg
    } else if utype_spec(objs, enm) is None {
        e matches SchemaError::MalformedDeclaration { fqname: x } && x@ == enm.name@
    } else {
        exists|i: int|
            0 <= i < kept.len() && !enum_value_ok(enums, objs, enm, #[trigger] kept[i]) && (forall|
                j: int,
            | 0 <= j < i ==> enum_value_ok(enums, objs, enm, #[trigger] kept[j])) && (
            e matches SchemaError::MalformedDeclaration { fqname: x } && x@ == qualify(
                enm.name@,
                kept[i].name@,
            ))
    }
}

proof fn lemma_kept_fields_prefix(s: Seq<RawField>, i: int)
    requires
        0 <= i <= s.len(),
    ensures
        kept_fields(s.take(i)).len() <= kept_fields(s).len(),
        kept_fields(s).take(kept_fields(s.take(i)).len() as int) == kept_fields(s.take(i)),
    decreases s.len(),
{
    if i == s.len() {
        assert(s.take(i) =~= s);
        assert(kept_fields(s).take(kept_fields(s).len() as int) =~= kept_fields(s));
    } else {
        assert(s.drop_last().take(i) =~= s.take(i));
        lemma_kept_fields_prefix(s.drop_last(), i);
        let k = kept_fields(s.take(i));
        let d = kept_fields(s.drop_last());
        if s.last().typ.base_type != BaseType::UType {
            assert(d.push(s.last()).take(k.len() as int) =~= d.take(k.len() as int));
        }
    }
}

proof fn lemma_kept_values_prefix(s: Seq<RawEnumVal>, i: int)
    requires
        0 <= i <= s.len(),
    ensures
        kept_values(s.take(i)).len() <= kept_values(s).len(),
        kept_values(s).take(kept_values(s.take(i)).len() as int) == kept_values(s.take(i)),
    decreases s.len(),
{
    if i == s.len() {
        assert(s.take(i) =~= s);
        assert(kept_values(s).take(kept_values(s).len() as int) =~= kept_values(s));
    } else {
        assert(s.drop_last().take(i) =~= s.take(i));
        lemma_kept_values_prefix(s.drop_last(), i);
        let k = kept_values(s.take(i));
        let d = kept_values(s.drop_last());
        if s.last().union_type matches Some(t) && t.base_type != BaseType::NoType {
            assert(d.push(s.last()).take(k.len() as int) =~= d.take(k.len() as int));
        }
    }
}

impl Object {
    /// Resolves a raw struct or table.
    #[verifier::loop_isolation(false)]
    pub fn from_raw_object(enums: &Vec<RawEnum>, objs: &Vec<RawObject>, obj: &RawObject) -> (r:
        Result<Object, SchemaError>)
        ensures
            match r {
                Ok(o) => struct_object_ok(enums@, objs@, *obj) && is_struct_object(
                    o,
                    enums@,
                    objs@,
                    *obj,
                ),
                Err(e) => !struct_object_ok(enums@, objs@, *obj) && struct_object_error(
                    e,
                    enums@,
                    objs@,
                    *obj,
                ),
            },
    {
        let fqname = obj.name.clone();
        let (pkg_name, name) = split_qualified(obj.name.as_str());
        let filepath = match &obj.declaration_file {
            Some(d) => d.clone(),
            None => {
                return Err(SchemaError::MalformedDeclaration { fqname });
            },
        };
        let docs = Docs::from_raw_docs(&obj.documentation);
        let kind = match ObjectKind::from_pkg_name(pkg_name.as_str()) {
            Ok(k) => k,
            Err(e) => {
                return Err(e);
            },
        };
        let attrs = Attributes::from_raw_attrs(&obj.attributes);
        let ghost all = obj.fields@;
        let ghost kept = kept_fields(all);
        let mut resolved: Vec<ObjectField> = Vec::new();
        let mut i: usize = 0;
        while i < obj.fields.len()
            invariant
                all == obj.fields@,
                kept == kept_fields(all),
                i <= all.len(),
                obj.declaration_file is Some,
                resolved.len() == kept_fields(all.take(i as int)).len(),
                forall|k: int|
                    0 <= k < resolved.len() ==> struct_field_ok(
                        enums@,
                        objs@,
                        *obj,
                        #[trigger] kept_fields(all.take(i as int))[k],
                    ) && is_struct_field(
                        resolved@[k],
                        enums@,
                        objs@,
                        *obj,
                        kept_fields(all.take(i as int))[k],
                    ),
            decreases all.len() - i,
        {
            let ghost pre = kept_fields(all.take(i as int));
            assert(all.take(i + 1).drop_last() =~= all.take(i as int));
            proof {
                lemma_kept_fields_prefix(all, i + 1);
            }
            if obj.fields[i].typ.base_type != BaseType::UType {
                assert(kept_fields(all.take(i + 1)) == pre.push(all[i as int]));
                match ObjectField::from_raw_object_field(enums, objs, obj, &obj.fields[i]) {
                    Ok(f) => {
                        resolved.push(f);
                    },
                    Err(e) => {
                        let ghost post = kept_fields(all.take(i + 1));
                        assert(kept.take(post.len() as int) == post);
                        assert(kept.take(post.len() as int)[pre.len() as int] == kept[pre.len() as int]);
                        assert(kept[pre.len() as int] == all[i as int]);
                        assert(!struct_field_ok(enums@, objs@, *obj, kept[pre.len() as int]));
                        assert forall|j: int| 0 <= j < pre.len() implies struct_field_ok(
                            enums@,
                            objs@,
                            *obj,
                            #[trigger] kept[j],
                        ) by {
                            assert(kept.take(post.len() as int)[j] == kept[j]);
                            assert(kept[j] == pre[j]);
                        }
                        return Err(e);
                    },
                }
            } else {
                assert(kept_fields(all.take(i + 1)) == pre);
            }
            i = i + 1;
        }
        assert(all.take(all.len() as int) =~= all);
        let mut keys: Vec<u32> = Vec::new();
        let mut j: usize = 0;
        while j < resolved.len()
            invariant
                kept == kept_fields(obj.fields@),
                resolved.len() == kept.len(),
                forall|k: int|
                    0 <= k < resolved.len() ==> struct_field_ok(enums@, objs@, *obj, #[trigger] kept[k])
                        && is_struct_field(resolved@[k], enums@, objs@, *obj, kept[k]),
                j <= resolved.len(),
                keys.len() == j,
                forall|k: int|
                    0 <= k < j ==> order_of(raw_attrs_view((#[trigger] kept[k]).attributes)) == Some(
                        keys@[k],
                    ),
            decreases resolved.len() - j,
        {
            match resolved[j].order() {
                Ok(v) => {
                    keys.push(v);
                },
                Err(e) => {
                    assert forall|k: int| 0 <= k < j implies order_of(
                        raw_attrs_view((#[trigger] kept[k]).attributes),
                    ) is Some by {}
                    assert(order_of(raw_attrs_view(kept[j as int].attributes)) is None);
                    assert(!(exists|i: int|
                        0 <= i < kept.len() && !struct_field_ok(enums@, objs@, *obj, #[trigger] kept[i])));
                    return Err(e);
                },
            }
            j = j + 1;
        }
        assert(keys@ =~= field_order_keys(kept));
        let ghost unsorted = resolved@;
        let fields = sort_by_keys(resolved, &keys);
        let o = Object {
            filepath,
            fqname,
            pkg_name,
            name,
            docs,
            kind,
            attrs,
            fields,
            specifics: ObjectSpecifics::Struct {  },
        };
        proof {
            let (p, q) = choose|p: Seq<int>, q: Seq<int>|
                is_stable_order(p, q, keys@) && forall|i: int|
                    0 <= i < o.fields@.len() ==> o.fields@[i] == unsorted[#[trigger] p[i]];
            assert(is_stable_order(p, q, field_order_keys(kept)));
            assert forall|i: int| 0 <= i < kept.len() implies is_struct_field(
                #[trigger] o.fields@[i],
                enums@,
                objs@,
                *obj,
                kept[p[i]],
            ) by {
                assert(o.fields@[i] == unsorted[p[i]]);
            }
        }
        Ok(o)
    }
}

impl Object {
    /// Resolves a raw enum or union.
    #[verifier::loop_isolation(false)]
    pub fn from_raw_enum(enums: &Vec<RawEnum>, objs: &Vec<RawObject>, enm: &RawEnum) -> (r: Result<
        Object,
        SchemaError,
    >)
        ensures
            match r {
                Ok(o) => enum_object_ok(enums@, objs@, *enm) && is_enum_object(
                    o,
                    enums@,
                    objs@,
                    *enm,
                ),
                Err(e) => !enum_object_ok(enums@, objs@, *enm) && enum_object_error(
                    e,
                    enums@,
                    objs@,
                    *enm,
                ),
            },
    {
        let fqname = enm.name.clone();
        let (pkg_name, name) = split_qualified(enm.name.as_str());
        let filepath = match &enm.declaration_file {
            Some(d) => d.clone(),
            None => {
                return Err(SchemaError::MalformedDeclaration { fqname });
            },
        };
        let docs = Docs::from_raw_docs(&enm.documentation);
        let kind = match ObjectKind::from_pkg_name(pkg_name.as_str()) {
            Ok(k) => k,
            Err(e) => {
                return Err(e);
            },
        };
        let u = enm.underlying_type;
        let utype = if u.base_type == BaseType::UType {
            None
        } else {
            match ElementType::from_raw_base_type(enums, objs, u, u.base_type) {
                Some(e) => Some(e),
                None => {
                    return Err(SchemaError::MalformedDeclaration { fqname });
                },
            }
        };
        let attrs = Attributes::from_raw_attrs(&enm.attributes);
        let ghost all = enm.values@;
        let ghost kept = kept_values(all);
        let mut fields: Vec<ObjectField> = Vec::new();
        let mut i: usize = 0;
        while i < enm.values.len()
            invariant
                all == enm.values@,
                kept == kept_values(all),
                i <= all.len(),
                fields.len() == kept_values(all.take(i as int)).len(),
                forall|k: int|
                    0 <= k < fields.len() ==> enum_value_ok(
                        enums@,
                        objs@,
                        *enm,
                        #[trigger] kept_values(all.take(i as int))[k],
                    ) && is_enum_value(
                        fields@[k],
                        enums@,
                        objs@,
                        *enm,
                        kept_values(all.take(i as int))[k],
                    ),
            decreases all.len() - i,
        {
            let ghost pre = kept_values(all.take(i as int));
            assert(all.take(i + 1).drop_last() =~= all.take(i as int));
            proof {
                lemma_kept_values_prefix(all, i + 1);
            }
            let val = &enm.values[i];
            let keep = match val.union_type {
                Some(t) => t.base_type != BaseType::NoType,
                None => false,
            };
            if keep {
                assert(kept_values(all.take(i + 1)) == pre.push(all[i as int]));
                match ObjectField::from_raw_enum_value(enums, objs, enm, val) {
                    Ok(f) => {
                        fields.push(f);
                    },
                    Err(e) => {
                        let ghost post = kept_values(all.take(i + 1));
                        assert(kept.take(post.len() as int) == post);
                        assert(kept.take(post.len() as int)[pre.len() as int] == kept[pre.len() as int]);
                        assert(kept[pre.len() as int] == all[i as int]);
                        assert forall|j: int| 0 <= j < pre.len() implies enum_value_ok(
                            enums@,
                            objs@,
                            *enm,
                            #[trigger] kept[j],
                        ) by {
                            assert(kept.take(post.len() as int)[j] == kept[j]);
                            assert(kept[j] == pre[j]);
                        }
                        return Err(e);
                    },
                }
            } else {
                assert(kept_values(all.take(i + 1)) == pre);
            }
            i = i + 1;
        }
        assert(all.take(all.len() as int) =~= all);
        Ok(
            Object {
                filepath,
                fqname,
                pkg_name,
                name,
                docs,
                kind,
                attrs,
                fields,
                specifics: ObjectSpecifics::Union { utype },
            },
        )
    }

    /// The attribute `name`, parsed into a `T`.
    pub fn get_attr<T: AttrValue>(&self, name: &str) -> (r: Result<T, SchemaError>)
        ensures
            get_outcome(r, self.fqname@, self.attrs@, name@),
    {
        self.attrs.get(self.fqname.as_str(), name)
    }

    /// The attribute `name`, parsed into a `T`, if present.
    pub fn try_get_attr<T: AttrValue>(&self, name: &str) -> (r: Result<Option<T>, SchemaError>)
        ensures
            try_get_outcome(r, self.fqname@, self.attrs@, name@),
    {
        self.attrs.try_get(self.fqname.as_str(), name)
    }

    /// The mandatory `order` attribute.
    pub fn order(&self) -> (r: Result<u32, SchemaError>)
        ensures
            get_outcome(r, self.fqname@, self.attrs@, order_key()),
            r matches Ok(v) ==> order_of(self.attrs@) == Some(v),
            r is Err ==> order_of(self.attrs@) is None,
    {
        self.attrs.get(self.fqname.as_str(), "order")
    }

    /// Whether this is a struct or table.
    pub fn is_struct(&self) -> (r: bool)
        ensures
            r == (self.specifics is Struct),
    {
        match &self.specifics {
            ObjectSpecifics::Struct {  } => true,
            ObjectSpecifics::Union { utype: _ } => false,
        }
    }

    /// Whether this is an enumeration of scalar labels.
    pub fn is_enum(&self) -> (r: bool)
        ensures
            r == (self.specifics matches ObjectSpecifics::Union { utype } && utype is Some),
    {
        match &self.specifics {
            ObjectSpecifics::Struct {  } => false,
            ObjectSpecifics::Union { utype } => utype.is_some(),
        }
    }

    /// Whether this is a sum type whose arms carry payloads.
    pub fn is_union(&self) -> (r: bool)
        ensures
            r == (self.specifics matches ObjectSpecifics::Union { utype } && utype is None),
    {
        match &self.specifics {
            ObjectSpecifics::Struct {  } => false,
            ObjectSpecifics::Union { utype } => utype.is_none(),
        }
    }
}

/// An enum whose underlying type is the union discriminant resolves to a union; one whose
/// underlying type is a scalar resolves to an enumeration.
pub proof fn lemma_union_or_enum(
    enums: Seq<RawEnum>,
    objs: Seq<RawObject>,
    enm: RawEnum,
    o: Object,
)
    requires
        is_enum_object(o, enums, objs, enm),
    ensures
        enm.underlying_type.base_type == BaseType::UType ==> (o.specifics matches ObjectSpecifics::Union { utype } && utype is None),
        crate::types::scalar_elem(enm.underlying_type.base_type) is Some ==> (o.specifics matches ObjectSpecifics::Union { utype } && utype is Some),
{
}

} // verus!
