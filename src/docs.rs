//! Documentation of a declaration, split into general lines and lines tagged for one target.
use vstd::prelude::*;

use crate::text::{split_tagged_line, str_eq, tag_split};

verus! {

/// The characters of each string.
pub open spec fn strings_view(v: Seq<String>) -> Seq<Seq<char>> {
    v.map_values(|s: String| s@)
}

/// The raw documentation lines of a declaration; none when absent.
pub open spec fn raw_doc_lines(docs: Option<Vec<String>>) -> Seq<Seq<char>> {
    match docs {
        Some(v) => strings_view(v@),
        None => Seq::empty(),
    }
}

/// The lines that carry no tag, in order.
pub open spec fn general_lines(lines: Seq<Seq<char>>) -> Seq<Seq<char>>
    decreases lines.len(),
{
    if lines.len() == 0 {
        Seq::empty()
    } else if tag_split(lines.last()) is None {
        general_lines(lines.drop_last()).push(lines.last())
    } else {
        general_lines(lines.drop_last())
    }
}

/// What follows the tag in each line tagged `tag`, in order.
pub open spec fn tagged_lines(lines: Seq<Seq<char>>, tag: Seq<char>) -> Seq<Seq<char>>
    decreases lines.len(),
{
    if lines.len() == 0 {
        Seq::empty()
    } else {
        match tag_split(lines.last()) {
            Some((t, rest)) => if t == tag {
                tagged_lines(lines.drop_last(), tag).push(rest)
            } else {
                tagged_lines(lines.drop_last(), tag)
            },
            None => tagged_lines(lines.drop_last(), tag),
        }
    }
}

/// The documentation of an object or a field.
#[derive(Clone, Debug)]
pub struct Docs {
    /// The untagged lines, as they were written.
    pub doc: Vec<String>,
    /// For each tag, once, the lines tagged with it (marker and tag removed).
    pub tagged_docs: Vec<(String, Vec<String>)>,
}

impl Docs {
    /// The tagged entries have distinct tags, each with the lines tagged so in `lines`; every
    /// tag that occurs in `lines` has an entry.
    pub open spec fn tagged_from(tagged: Seq<(String, Vec<String>)>, lines: Seq<Seq<char>>) -> bool {
        &&& forall|i: int, j: int|
            0 <= i < j < tagged.len() ==> (#[trigger] tagged[i]).0@ != (#[trigger] tagged[j]).0@
        &&& forall|i: int|
            0 <= i < tagged.len() ==> strings_view((#[trigger] tagged[i]).1@) == tagged_lines(
                lines,
                tagged[i].0@,
            ) && tagged_lines(lines, tagged[i].0@).len() > 0
        &&& forall|t: Seq<char>|
            #![trigger tagged_lines(lines, t)]
            tagged_lines(lines, t).len() > 0 ==> exists|i: int|
                0 <= i < tagged.len() && (#[trigger] tagged[i]).0@ == t
    }

    /// These are the docs of the documentation lines `lines`.
    pub open spec fn describes(&self, lines: Seq<Seq<char>>) -> bool {
        &&& strings_view(self.doc@) == general_lines(lines)
        &&& Self::tagged_from(self.tagged_docs@, lines)
    }

    /// Splits raw documentation lines into general and tagged ones.
    pub fn from_raw_docs(docs: &Option<Vec<String>>) -> (r: Docs)
        ensures
            r.describes(raw_doc_lines(*docs)),
    {
        let mut doc: Vec<String> = Vec::new();
        let mut tagged_docs: Vec<(String, Vec<String>)> = Vec::new();
        match docs {
            None => {
                let r = Docs { doc, tagged_docs };
                assert(strings_view(r.doc@) =~= Seq::empty());
                r
            },
            Some(lines) => {
                let ghost all = strings_view(lines@);
                let mut i: usize = 0;
                assert(strings_view(doc@) =~= Seq::empty());
                while i < lines.len()
                    invariant
                        i <= lines.len(),
                        all == strings_view(lines@),
                        strings_view(doc@) == general_lines(all.take(i as int)),
                        Self::tagged_from(tagged_docs@, all.take(i as int)),
                    decreases lines.len() - i,
                {
                    proof {
                        lemma_step(all, i as int);
                    }
                    let line = &lines[i];
                    match split_tagged_line(line.as_str()) {
                        None => {
                            let ghost old_doc = doc@;
                            doc.push(line.clone());
                            assert(strings_view(doc@) =~= strings_view(old_doc).push(line@));
                            let ghost pre = all.take(i as int);
                            let ghost post = all.take(i + 1);
                            assert forall|t: Seq<char>| #[trigger]
                                tagged_lines(post, t) == tagged_lines(pre, t) by {}
                        },
                        Some((tag, rest)) => {
                            assert(all.take(i + 1) =~= all.take(i as int).push(all[i as int]));
                            add_tagged(&mut tagged_docs, tag, rest, Ghost(all.take(i as int)), Ghost(all[i as int]));
                        },
                    }
                    i = i + 1;
                }
                assert(all.take(lines.len() as int) =~= all);
                Docs { doc, tagged_docs }
            },
        }
    }
}

proof fn lemma_step(all: Seq<Seq<char>>, i: int)
    requires
        0 <= i < all.len(),
    ensures
        general_lines(all.take(i + 1)) == if tag_split(all[i]) is None {
            general_lines(all.take(i)).push(all[i])
        } else {
            general_lines(all.take(i))
        },
        forall|t: Seq<char>| #[trigger]
            tagged_lines(all.take(i + 1), t) == match tag_split(all[i]) {
                Some((u, rest)) => if u == t {
                    tagged_lines(all.take(i), t).push(rest)
                } else {
                    tagged_lines(all.take(i), t)
                },
                None => tagged_lines(all.take(i), t),
            },
{
    assert(all.take(i + 1).drop_last() =~= all.take(i));
    assert(all.take(i + 1).last() == all[i]);
}

/// Appends `rest` to the lines of `tag`, adding an entry for a new tag.
fn add_tagged(
    tagged: &mut Vec<(String, Vec<String>)>,
    tag: String,
    rest: String,
    Ghost(pre): Ghost<Seq<Seq<char>>>,
    Ghost(line): Ghost<Seq<char>>,
)
    requires
        Docs::tagged_from(old(tagged)@, pre),
        tag_split(line) == Some((tag@, rest@)),
        forall|t: Seq<char>| #[trigger]
            tagged_lines(pre.push(line), t) == if tag@ == t {
                tagged_lines(pre, t).push(rest@)
            } else {
                tagged_lines(pre, t)
            },
    ensures
        Docs::tagged_from(final(tagged)@, pre.push(line)),
{
    let ghost post = pre.push(line);
    let n = tagged.len();
    match find_tag(tagged, tag.as_str()) {
        Some(j) => {
            let ghost before = tagged@;
            let (t, mut g) = tagged.remove(j);
            let ghost old_g = g@;
            g.push(rest);
            assert(strings_view(g@) =~= strings_view(old_g).push(rest@));
            tagged.insert(j, (t, g));
            assert forall|k: int| 0 <= k < tagged.len() && k != j implies #[trigger] tagged@[k]
                == before[k] by {
                if k < j {
                } else {
                }
            }
            assert forall|u: Seq<char>| #[trigger]
                tagged_lines(post, u).len() > 0 implies exists|k: int|
                0 <= k < tagged.len() && (#[trigger] tagged@[k]).0@ == u by {
                if u == tag@ {
                    assert(tagged@[j as int].0@ == u);
                } else {
                    assert(tagged_lines(pre, u).len() > 0);
                    let k = choose|k: int| 0 <= k < before.len() && (#[trigger] before[k]).0@ == u;
                    assert(tagged@[k].0@ == u);
                }
            }
            return;
        },
        None => {},
    }
    let ghost before = tagged@;
    let mut g: Vec<String> = Vec::new();
    g.push(rest);
    proof {
        if tagged_lines(pre, tag@).len() > 0 {
            let k = choose|k: int| 0 <= k < before.len() && (#[trigger] before[k]).0@ == tag@;
            assert(before[k].0@ != tag@);
        }
    }
    assert(strings_view(g@) =~= tagged_lines(pre, tag@).push(rest@));
    tagged.push((tag, g));
    assert forall|u: Seq<char>| #[trigger]
        tagged_lines(post, u).len() > 0 implies exists|k: int|
        0 <= k < tagged.len() && (#[trigger] tagged@[k]).0@ == u by {
        if u == tag@ {
            assert(tagged@[n as int].0@ == u);
        } else {
            assert(tagged_lines(pre, u).len() > 0);
            let k = choose|k: int| 0 <= k < before.len() && (#[trigger] before[k]).0@ == u;
            assert(tagged@[k].0@ == u);
        }
    }
}

/// Index of the entry for `tag`, if there is one.
fn find_tag(tagged: &Vec<(String, Vec<String>)>, tag: &str) -> (r: Option<usize>)
    ensures
        match r {
            Some(j) => j < tagged.len() && tagged@[j as int].0@ == tag@,
            None => forall|k: int| 0 <= k < tagged.len() ==> (#[trigger] tagged@[k]).0@ != tag@,
        },
{
    let mut j: usize = 0;
    while j < tagged.len()
        invariant
            j <= tagged.len(),
            forall|k: int| 0 <= k < j ==> (#[trigger] tagged@[k]).0@ != tag@,
        decreases tagged.len() - j,
    {
        if str_eq(tagged[j].0.as_str(), tag) {
            return Some(j);
        }
        j = j + 1;
    }
    None
}

} // verus!
