//! Character-level helpers on names and documentation lines.
use vstd::prelude::*;

verus! {

/// Relies on `str::chars` (collected into a `Vec`): yields the characters of `s` in order.
#[verifier::external_body]
pub(crate) fn chars_of(s: &str) -> (r: Vec<char>)
    ensures
        r@ == s@,
{
    s.chars().collect()
}

/// Relies on `String: FromIterator<char>`: the string holds exactly the characters
/// `v[start..end]`, in order.
#[verifier::external_body]
pub(crate) fn string_of(v: &Vec<char>, start: usize, end: usize) -> (r: String)
    requires
        start <= end <= v.len(),
    ensures
        r@ == v@.subrange(start as int, end as int),
{
    v[start..end].iter().collect()
}

/// `p` is a prefix of `s`.
pub open spec fn is_prefix_of(p: Seq<char>, s: Seq<char>) -> bool {
    p.len() <= s.len() && s.subrange(0, p.len() as int) == p
}

/// Whether `s` starts with `p`.
pub fn starts_with(s: &str, p: &str) -> (r: bool)
    ensures
        r == is_prefix_of(p@, s@),
{
    let sc = chars_of(s);
    let pc = chars_of(p);
    if pc.len() > sc.len() {
        return false;
    }
    let mut i: usize = 0;
    while i < pc.len()
        invariant
            pc@ == p@,
            sc@ == s@,
            pc.len() <= sc.len(),
            i <= pc.len(),
            forall|k: int| 0 <= k < i ==> sc@[k] == pc@[k],
        decreases pc.len() - i,
    {
        if sc[i] != pc[i] {
            assert(s@.subrange(0, p@.len() as int)[i as int] != p@[i as int]);
            return false;
        }
        i = i + 1;
    }
    assert(s@.subrange(0, p@.len() as int) =~= p@);
    true
}

/// Whether `a` and `b` hold the same characters.
pub fn str_eq(a: &str, b: &str) -> (r: bool)
    ensures
        r == (a@ == b@),
{
    let ac = chars_of(a);
    let bc = chars_of(b);
    if ac.len() != bc.len() {
        return false;
    }
    let mut i: usize = 0;
    while i < ac.len()
        invariant
            ac@ == a@,
            bc@ == b@,
            ac.len() == bc.len(),
            i <= ac.len(),
            forall|k: int| 0 <= k < i ==> ac@[k] == bc@[k],
        decreases ac.len() - i,
    {
        if ac[i] != bc[i] {
            return false;
        }
        i = i + 1;
    }
    assert(a@ =~= b@);
    true
}

/// Index of the last `'.'` in `s`, or `-1` when there is none.
pub open spec fn last_dot(s: Seq<char>) -> int
    decreases s.len(),
{
    if s.len() == 0 {
        -1
    } else if s.last() == '.' {
        s.len() - 1
    } else {
        last_dot(s.drop_last())
    }
}

/// Splits a qualified name on its last `'.'` into (package, name); without a `'.'` the package
/// is empty and the name is the whole string.
pub open spec fn split_qualified_spec(s: Seq<char>) -> (Seq<char>, Seq<char>) {
    let i = last_dot(s);
    if i < 0 {
        (Seq::empty(), s)
    } else {
        (s.subrange(0, i), s.subrange(i + 1, s.len() as int))
    }
}

/// Splits a qualified name on its last `'.'`.
pub fn split_qualified(s: &str) -> (r: (String, String))
    ensures
        (r.0@, r.1@) == split_qualified_spec(s@),
{
    let c = chars_of(s);
    let mut i: usize = c.len();
    assert(c@.subrange(0, c.len() as int) =~= c@);
    while i > 0
        invariant
            c@ == s@,
            i <= c.len(),
            last_dot(s@) == last_dot(c@.subrange(0, i as int)),
            i > 0 ==> c@.subrange(0, i as int).last() == c@[i - 1],
        decreases i,
    {
        if c[i - 1] == '.' {
            let pkg = string_of(&c, 0, i - 1);
            let name = string_of(&c, i, c.len());
            return (pkg, name);
        }
        assert(c@.subrange(0, i as int).drop_last() =~= c@.subrange(0, i - 1));
        i = i - 1;
    }
    assert(c@.subrange(0, c.len() as int) =~= c@);
    (String::new(), string_of(&c, 0, c.len()))
}

/// The characters with the Unicode `White_Space` property.
pub open spec fn is_ws(c: char) -> bool {
    ('\u{9}' <= c && c <= '\u{d}') || c == ' ' || c == '\u{85}' || c == '\u{a0}' || c == '\u{1680}'
        || ('\u{2000}' <= c && c <= '\u{200a}') || c == '\u{2028}' || c == '\u{2029}' || c
        == '\u{202f}' || c == '\u{205f}' || c == '\u{3000}'
}

/// Whether `c` is a whitespace character.
pub fn is_whitespace(c: char) -> (r: bool)
    ensures
        r == is_ws(c),
{
    ('\u{9}' <= c && c <= '\u{d}') || c == ' ' || c == '\u{85}' || c == '\u{a0}' || c == '\u{1680}'
        || ('\u{2000}' <= c && c <= '\u{200a}') || c == '\u{2028}' || c == '\u{2029}' || c
        == '\u{202f}' || c == '\u{205f}' || c == '\u{3000}'
}

/// `s` without its leading whitespace.
pub open spec fn trim_start(s: Seq<char>) -> Seq<char>
    decreases s.len(),
{
    if s.len() > 0 && is_ws(s[0]) {
        trim_start(s.drop_first())
    } else {
        s
    }
}

/// `s` without its trailing whitespace.
pub open spec fn trim_end(s: Seq<char>) -> Seq<char>
    decreases s.len(),
{
    if s.len() > 0 && is_ws(s.last()) {
        trim_end(s.drop_last())
    } else {
        s
    }
}

/// `s` without leading and trailing whitespace.
pub open spec fn trim(s: Seq<char>) -> Seq<char> {
    trim_end(trim_start(s))
}

/// End of the first token of `t` that starts at `i`: the index of the first whitespace
/// character at or after `i`, or the length of `t`.
pub open spec fn token_end(t: Seq<char>, i: int) -> int
    decreases t.len() - i,
{
    if i >= t.len() {
        t.len() as int
    } else if is_ws(t[i]) {
        i
    } else {
        token_end(t, i + 1)
    }
}

/// A documentation line whose trimmed text starts with `'\\'`: its tag (the first token without
/// the marker) and the rest of the trimmed text after that token. `None` for other lines.
pub open spec fn tag_split(line: Seq<char>) -> Option<(Seq<char>, Seq<char>)> {
    let t = trim(line);
    if t.len() > 0 && t[0] == '\\' {
        let k = token_end(t, 1);
        Some((t.subrange(1, k), t.subrange(k, t.len() as int)))
    } else {
        None
    }
}

proof fn lemma_token_end_range(t: Seq<char>, i: int)
    requires
        0 <= i <= t.len(),
    ensures
        i <= token_end(t, i) <= t.len(),
    decreases t.len() - i,
{
    if i < t.len() && !is_ws(t[i]) {
        lemma_token_end_range(t, i + 1);
    }
}

/// Splits a tagged documentation line into its tag and the rest of its trimmed text.
pub fn split_tagged_line(line: &str) -> (r: Option<(String, String)>)
    ensures
        match tag_split(line@) {
            Some((tag, rest)) => r matches Some((a, b)) && a@ == tag && b@ == rest,
            None => r is None,
        },
{
    let c = chars_of(line);
    let n = c.len();
    let mut i: usize = 0;
    assert(c@.subrange(0, n as int) =~= line@);
    while i < n && is_whitespace(c[i])
        invariant
            c@ == line@,
            n == c.len(),
            i <= n,
            trim_start(c@.subrange(i as int, n as int)) == trim_start(line@),
        decreases n - i,
    {
        assert(c@.subrange(i as int, n as int).drop_first() =~= c@.subrange(i + 1, n as int));
        i = i + 1;
    }
    let mut j: usize = n;
    assert(c@.subrange(i as int, j as int) =~= trim_start(line@));
    while j > i && is_whitespace(c[j - 1])
        invariant
            c@ == line@,
            n == c.len(),
            i <= j <= n,
            trim_end(c@.subrange(i as int, j as int)) == trim(line@),
        decreases j,
    {
        assert(c@.subrange(i as int, j as int).drop_last() =~= c@.subrange(i as int, j - 1));
        j = j - 1;
    }
    let ghost t = trim(line@);
    assert(t =~= c@.subrange(i as int, j as int));
    if j > i && c[i] == '\\' {
        let mut k: usize = i + 1;
        assert(token_end(t, 1) == token_end(t, (k - i) as int));
        while k < j && !is_whitespace(c[k])
            invariant
                c@ == line@,
                n == c.len(),
                t =~= c@.subrange(i as int, j as int),
                i < k <= j <= n,
                token_end(t, 1) == token_end(t, (k - i) as int),
            decreases j - k,
        {
            assert(t[(k - i) as int] == c@[k as int]);
            k = k + 1;
        }
        proof {
            lemma_token_end_range(t, 1);
        }
        let tag = string_of(&c, i + 1, k);
        let rest = string_of(&c, k, j);
        assert(tag@ =~= t.subrange(1, token_end(t, 1)));
        assert(rest@ =~= t.subrange(token_end(t, 1), t.len() as int));
        Some((tag, rest))
    } else {
        None
    }
}

} // verus!
