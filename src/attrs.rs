//! String-keyed attributes with typed, parse-on-demand accessors.
use vstd::prelude::*;

use crate::error::SchemaError;
use crate::raw::RawKeyValue;
use crate::text::{chars_of, str_eq};

verus! {

/// A value that an attribute's text can be parsed into.
pub trait AttrValue: Sized {
    /// Whether the text `s` parses into a value of this type.
    spec fn parses(s: Seq<char>) -> bool;

    /// Whether the text `s` parses into `v`.
    spec fn parses_to(s: Seq<char>, v: Self) -> bool;

    fn parse_attr(s: &str) -> (r: Option<Self>)
        ensures
            r is Some <==> Self::parses(s@),
            r matches Some(v) ==> Self::parses_to(s@, v),
    ;
}

/// Value of a string of decimal digits.
pub open spec fn digits_value(s: Seq<char>) -> int
    decreases s.len(),
{
    if s.len() == 0 {
        0
    } else {
        digits_value(s.drop_last()) * 10 + (s.last() as int - '0' as int)
    }
}

pub open spec fn all_digits(s: Seq<char>) -> bool {
    forall|i: int| 0 <= i < s.len() ==> '0' <= #[trigger] s[i] <= '9'
}

/// The digits of an unsigned number, after an optional `'+'`.
pub open spec fn unsigned_digits(s: Seq<char>) -> Seq<char> {
    if s.len() > 0 && s[0] == '+' {
        s.drop_first()
    } else {
        s
    }
}

/// The `u32` written in decimal by `s` (an optional `'+'`, then one or more digits).
pub open spec fn parse_u32_spec(s: Seq<char>) -> Option<u32> {
    let d = unsigned_digits(s);
    if d.len() > 0 && all_digits(d) && digits_value(d) <= u32::MAX {
        Some(digits_value(d) as u32)
    } else {
        None
    }
}

impl AttrValue for u32 {
    open spec fn parses(s: Seq<char>) -> bool {
        parse_u32_spec(s) is Some
    }

    open spec fn parses_to(s: Seq<char>, v: u32) -> bool {
        parse_u32_spec(s) == Some(v)
    }

    fn parse_attr(s: &str) -> (r: Option<u32>) {
        let c = chars_of(s);
        let start: usize = if c.len() > 0 && c[0] == '+' {
            1
        } else {
            0
        };
        let ghost d = unsigned_digits(s@);
        assert(d =~= c@.subrange(start as int, c.len() as int));
        if start == c.len() {
            return None;
        }
        let mut acc: u64 = 0;
        let mut i: usize = start;
        while i < c.len()
            invariant
                c@ == s@,
                d == unsigned_digits(s@),
                d =~= c@.subrange(start as int, c.len() as int),
                start <= i <= c.len(),
                all_digits(c@.subrange(start as int, i as int)),
                acc == if digits_value(c@.subrange(start as int, i as int)) > u32::MAX {
                    u32::MAX as int + 1
                } else {
                    digits_value(c@.subrange(start as int, i as int))
                },
            decreases c.len() - i,
        {
            let ch = c[i];
            if !('0' <= ch && ch <= '9') {
                assert(d[i - start] == ch);
                assert(!all_digits(d));
                return None;
            }
            let ghost pre = c@.subrange(start as int, i as int);
            let ghost nxt = c@.subrange(start as int, i + 1);
            assert(nxt.drop_last() =~= pre);
            proof {
                lemma_digits_nonneg(pre);
            }
            let dig = (ch as u32 - '0' as u32) as u64;
            let next = acc * 10 + dig;
            if next > u32::MAX as u64 {
                assert(digits_value(nxt) > u32::MAX) by (nonlinear_arith)
                    requires
                        next == acc * 10 + dig,
                        next > u32::MAX,
                        digits_value(nxt) == digits_value(pre) * 10 + dig,
                        acc <= digits_value(pre),
                ;
                acc = u32::MAX as u64 + 1;
            } else {
                acc = next;
            }
            assert(all_digits(nxt)) by {
                assert forall|k: int| 0 <= k < nxt.len() implies '0' <= #[trigger] nxt[k] <= '9' by {
                    if k < pre.len() {
                        assert(nxt[k] == pre[k]);
                    }
                }
            }
            i = i + 1;
        }
        assert(c@.subrange(start as int, c.len() as int) =~= d);
        if acc > u32::MAX as u64 {
            None
        } else {
            Some(acc as u32)
        }
    }
}

proof fn lemma_digits_nonneg(s: Seq<char>)
    requires
        all_digits(s),
    ensures
        digits_value(s) >= 0,
    decreases s.len(),
{
    if s.len() > 0 {
        assert(all_digits(s.drop_last())) by {
            assert forall|k: int| 0 <= k < s.drop_last().len() implies '0' <= #[trigger] s.drop_last()[k] <= '9' by {
                assert(s.drop_last()[k] == s[k]);
            }
        }
        lemma_digits_nonneg(s.drop_last());
        assert(s[s.len() - 1] >= '0');
    }
}

/// `"true"` and `"false"`.
pub open spec fn parse_bool_spec(s: Seq<char>) -> Option<bool> {
    if s == seq!['t', 'r', 'u', 'e'] {
        Some(true)
    } else if s == seq!['f', 'a', 'l', 's', 'e'] {
        Some(false)
    } else {
        None
    }
}

impl AttrValue for bool {
    open spec fn parses(s: Seq<char>) -> bool {
        parse_bool_spec(s) is Some
    }

    open spec fn parses_to(s: Seq<char>, v: bool) -> bool {
        parse_bool_spec(s) == Some(v)
    }

    fn parse_attr(s: &str) -> (r: Option<bool>) {
        let c = chars_of(s);
        if c.len() == 4 && c[0] == 't' && c[1] == 'r' && c[2] == 'u' && c[3] == 'e' {
            assert(s@ =~= seq!['t', 'r', 'u', 'e']);
            Some(true)
        } else if c.len() == 5 && c[0] == 'f' && c[1] == 'a' && c[2] == 'l' && c[3] == 's' && c[4]
            == 'e' {
            assert(s@ =~= seq!['f', 'a', 'l', 's', 'e']);
            Some(false)
        } else {
            proof {
                if s@ == seq!['t', 'r', 'u', 'e'] {
                    assert(c@[3] == 'e');
                }
                if s@ == seq!['f', 'a', 'l', 's', 'e'] {
                    assert(c@[4] == 'e');
                }
            }
            None
        }
    }
}

impl AttrValue for String {
    open spec fn parses(s: Seq<char>) -> bool {
        true
    }

    open spec fn parses_to(s: Seq<char>, v: String) -> bool {
        v@ == s
    }

    fn parse_attr(s: &str) -> (r: Option<String>) {
        Some(s.to_owned())
    }
}

pub open spec fn opt_str_view(o: Option<String>) -> Option<Seq<char>> {
    match o {
        Some(s) => Some(s@),
        None => None,
    }
}

/// The text of the attribute `k` in `entries`: the value of its last entry, `None` where no
/// entry has that key or the last one has no value.
pub open spec fn attr_text(entries: Seq<(Seq<char>, Option<Seq<char>>)>, k: Seq<char>) -> Option<
    Seq<char>,
>
    decreases entries.len(),
{
    if entries.len() == 0 {
        None
    } else if entries.last().0 == k {
        entries.last().1
    } else {
        attr_text(entries.drop_last(), k)
    }
}

/// The attributes of an object or a field, in the order in which they were declared; a later
/// entry for a key overrides an earlier one.
#[derive(Clone, Debug)]
pub struct Attributes {
    entries: Vec<(String, Option<String>)>,
}

pub open spec fn entry_view(e: (String, Option<String>)) -> (Seq<char>, Option<Seq<char>>) {
    (e.0@, opt_str_view(e.1))
}

impl View for Attributes {
    type V = Seq<(Seq<char>, Option<Seq<char>>)>;

    closed spec fn view(&self) -> Self::V {
        self.entries@.map_values(|e: (String, Option<String>)| entry_view(e))
    }
}

pub open spec fn kv_view(kv: RawKeyValue) -> (Seq<char>, Option<Seq<char>>) {
    (kv.key@, opt_str_view(kv.value))
}

pub open spec fn raw_attrs_view(attrs: Option<Vec<RawKeyValue>>) -> Seq<(Seq<char>, Option<Seq<char>>)> {
    match attrs {
        Some(v) => v@.map_values(|kv: RawKeyValue| kv_view(kv)),
        None => Seq::empty(),
    }
}

fn clone_opt(o: &Option<String>) -> (r: Option<String>)
    ensures
        opt_str_view(r) == opt_str_view(*o),
{
    match o {
        Some(s) => Some(s.clone()),
        None => None,
    }
}

impl Default for Attributes {
    /// No attributes.
    fn default() -> (r: Attributes)
        ensures
            r@ == Seq::<(Seq<char>, Option<Seq<char>>)>::empty(),
    {
        let r = Attributes { entries: Vec::new() };
        assert(r@ =~= Seq::<(Seq<char>, Option<Seq<char>>)>::empty());
        r
    }
}

impl Attributes {
    /// Collects the raw attributes of a declaration; absent ones give none.
    pub fn from_raw_attrs(attrs: &Option<Vec<RawKeyValue>>) -> (r: Attributes)
        ensures
            r@ == raw_attrs_view(*attrs),
    {
        let mut entries: Vec<(String, Option<String>)> = Vec::new();
        match attrs {
            Some(v) => {
                let mut i: usize = 0;
                while i < v.len()
                    invariant
                        i <= v.len(),
                        entries.len() == i,
                        forall|k: int| 0 <= k < i ==> entry_view(#[trigger] entries@[k]) == kv_view(v@[k]),
                    decreases v.len() - i,
                {
                    let k = v[i].key.clone();
                    let val = clone_opt(&v[i].value);
                    entries.push((k, val));
                    i = i + 1;
                }
            },
            None => {},
        }
        let r = Attributes { entries };
        assert(r@ =~= raw_attrs_view(*attrs));
        r
    }

    /// The text of the attribute `name`, if it has one.
    pub fn text(&self, name: &str) -> (r: Option<&String>)
        ensures
            match attr_text(self@, name@) {
                Some(t) => r matches Some(s) && s@ == t,
                None => r is None,
            },
    {
        let n = self.entries.len();
        let mut i: usize = n;
        assert(self@.subrange(0, n as int) =~= self@);
        while i > 0
            invariant
                i <= n == self.entries.len(),
                attr_text(self@, name@) == attr_text(self@.subrange(0, i as int), name@),
            decreases i,
        {
            let ghost pre = self@.subrange(0, i as int);
            assert(pre.last() == entry_view(self.entries@[i - 1]));
            assert(pre.drop_last() =~= self@.subrange(0, i - 1));
            if str_eq(self.entries[i - 1].0.as_str(), name) {
                return self.entries[i - 1].1.as_ref();
            }
            i = i - 1;
        }
        None
    }

    /// The attribute `name` parsed into a `T`: fails when it is absent (or has no value) or
    /// when its text does not parse.
    pub fn get<T: AttrValue>(&self, owner_fqname: &str, name: &str) -> (r: Result<T, SchemaError>)
        ensures
            get_outcome(r, owner_fqname@, self@, name@),
    {
        match self.try_get(owner_fqname, name) {
            Ok(Some(v)) => Ok(v),
            Ok(None) => Err(
                SchemaError::MissingRequiredAttribute {
                    owner: owner_fqname.to_owned(),
                    name: name.to_owned(),
                },
            ),
            Err(e) => Err(e),
        }
    }

    /// The attribute `name` parsed into a `T`, or `None` when it is absent (or has no value);
    /// fails when its text does not parse.
    pub fn try_get<T: AttrValue>(&self, owner_fqname: &str, name: &str) -> (r: Result<
        Option<T>,
        SchemaError,
    >)
        ensures
            try_get_outcome(r, owner_fqname@, self@, name@),
    {
        match self.text(name) {
            None => Ok(None),
            Some(t) => match T::parse_attr(t.as_str()) {
                Some(v) => Ok(Some(v)),
                None => Err(
                    SchemaError::InvalidAttributeValue {
                        owner: owner_fqname.to_owned(),
                        name: name.to_owned(),
                        value: t.clone(),
                    },
                ),
            },
        }
    }
}

/// The key of the mandatory ordering attribute.
pub open spec fn order_key() -> Seq<char> {
    "order"@
}

/// The value of the `order` attribute, where it is present and a valid `u32`.
pub open spec fn order_of(a: Seq<(Seq<char>, Option<Seq<char>>)>) -> Option<u32> {
    match attr_text(a, order_key()) {
        Some(t) => parse_u32_spec(t),
        None => None,
    }
}

/// `e` is the error for the attribute `name` of `owner`: missing, or present with text that
/// does not parse.
pub open spec fn attr_error(
    e: SchemaError,
    owner: Seq<char>,
    a: Seq<(Seq<char>, Option<Seq<char>>)>,
    name: Seq<char>,
) -> bool {
    match attr_text(a, name) {
        None => e matches SchemaError::MissingRequiredAttribute { owner: o, name: n } && o@ == owner
            && n@ == name,
        Some(t) => e matches SchemaError::InvalidAttributeValue { owner: o, name: n, value: x }
            && o@ == owner && n@ == name && x@ == t,
    }
}

/// `r` is what reading the mandatory attribute `name` of `owner` as a `T` gives.
pub open spec fn get_outcome<T: AttrValue>(
    r: Result<T, SchemaError>,
    owner: Seq<char>,
    a: Seq<(Seq<char>, Option<Seq<char>>)>,
    name: Seq<char>,
) -> bool {
    match attr_text(a, name) {
        Some(t) => if T::parses(t) {
            r matches Ok(v) && T::parses_to(t, v)
        } else {
            r matches Err(e) && attr_error(e, owner, a, name)
        },
        None => r matches Err(e) && attr_error(e, owner, a, name),
    }
}

/// `r` is what reading the optional attribute `name` of `owner` as a `T` gives.
pub open spec fn try_get_outcome<T: AttrValue>(
    r: Result<Option<T>, SchemaError>,
    owner: Seq<char>,
    a: Seq<(Seq<char>, Option<Seq<char>>)>,
    name: Seq<char>,
) -> bool {
    match attr_text(a, name) {
        Some(t) => if T::parses(t) {
            r matches Ok(Some(v)) && T::parses_to(t, v)
        } else {
            r matches Err(e) && attr_error(e, owner, a, name)
        },
        None => r matches Ok(None),
    }
}

} // verus!
