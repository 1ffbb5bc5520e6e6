//! Stable ordering by an unsigned key.
use vstd::prelude::*;

verus! {

/// Index `a` comes before index `b`: a smaller key, or an equal key and a smaller index.
pub open spec fn lex_before(keys: Seq<u32>, a: int, b: int) -> bool {
    keys[a] < keys[b] || (keys[a] == keys[b] && a < b)
}

/// `p` lists the indices of `keys` by ascending key, equal keys in index order; `q` is the
/// inverse of `p`.
pub open spec fn is_stable_order(p: Seq<int>, q: Seq<int>, keys: Seq<u32>) -> bool {
    let n = keys.len();
    &&& p.len() == n
    &&& q.len() == n
    &&& forall|i: int| 0 <= i < n ==> 0 <= #[trigger] p[i] < n && q[p[i]] == i
    &&& forall|m: int| 0 <= m < n ==> 0 <= #[trigger] q[m] < n && p[q[m]] == m
    &&& forall|i: int, j: int| 0 <= i < j < n ==> lex_before(keys, #[trigger] p[i], #[trigger] p[j])
}

/// `r` is `s` sorted stably by `keys` (the key of `s[i]` is `keys[i]`).
pub open spec fn stably_sorted<T>(r: Seq<T>, s: Seq<T>, keys: Seq<u32>) -> bool {
    &&& r.len() == s.len()
    &&& s.len() == keys.len()
    &&& exists|p: Seq<int>, q: Seq<int>|
        #![trigger is_stable_order(p, q, keys)]
        is_stable_order(p, q, keys) && forall|i: int| 0 <= i < r.len() ==> r[i] == s[#[trigger] p[i]]
}

/// Sorts `items` stably by `keys`.
pub fn sort_by_keys<T>(items: Vec<T>, keys: &Vec<u32>) -> (r: Vec<T>)
    requires
        items.len() == keys.len(),
    ensures
        stably_sorted(r@, items@, keys@),
{
    let n = items.len();
    let ghost all = items@;
    let mut rest = items;
    let mut out: Vec<T> = Vec::new();
    let mut out_keys: Vec<u32> = Vec::new();
    let ghost mut p: Seq<int> = Seq::empty();
    let ghost mut q: Seq<int> = Seq::empty();
    let mut m: usize = 0;
    while m < n
        invariant
            n == all.len() == keys.len(),
            m <= n,
            rest@ == all.skip(m as int),
            out.len() == m,
            out_keys.len() == m,
            is_stable_order(p, q, keys@.take(m as int)),
            forall|i: int| 0 <= i < m ==> out@[i] == all[#[trigger] p[i]] && out_keys@[i] == keys@[p[i]],
        decreases n - m,
    {
        let item = rest.remove(0);
        assert(all.skip(m as int)[0] == all[m as int]);
        assert(rest@ =~= all.skip(m + 1));
        let k = keys[m];
        let mut pos: usize = 0;
        while pos < out_keys.len() && out_keys[pos] <= k
            invariant
                pos <= out_keys.len(),
                forall|i: int| 0 <= i < pos ==> out_keys@[i] <= k,
            decreases out_keys.len() - pos,
        {
            pos = pos + 1;
        }
        let ghost kt = keys@.take(m as int);
        let ghost kt1 = keys@.take(m + 1);
        let ghost old_p = p;
        let ghost old_q = q;
        let ghost old_out = out@;
        let ghost old_keys = out_keys@;
        assert(forall|i: int| pos <= i < m ==> old_keys[i] > k) by {
            assert forall|i: int| pos <= i < m implies old_keys[i] > k by {
                if pos < m {
                    assert(old_keys[pos as int] > k);
                    if i > pos {
                        assert(lex_before(kt, old_p[pos as int], old_p[i]));
                    }
                }
            }
        }
        out.insert(pos, item);
        out_keys.insert(pos, k);
        proof {
            p = old_p.insert(pos as int, m as int);
            q = Seq::new(
                (m + 1) as nat,
                |x: int|
                    if x == m {
                        pos as int
                    } else if old_q[x] >= pos {
                        old_q[x] + 1
                    } else {
                        old_q[x]
                    },
            );
            assert forall|i: int| 0 <= i < m + 1 implies kt1[i] == if i < m {
                kt[i]
            } else {
                k
            } by {}
            assert forall|i: int| 0 <= i < m + 1 implies 0 <= #[trigger] p[i] < m + 1 && q[p[i]]
                == i && out@[i] == all[p[i]] && out_keys@[i] == keys@[p[i]] by {
                if i < pos {
                    assert(p[i] == old_p[i]);
                } else if i > pos {
                    assert(p[i] == old_p[i - 1]);
                }
            }
            assert forall|x: int| 0 <= x < m + 1 implies 0 <= #[trigger] q[x] < m + 1 && p[q[x]]
                == x by {
                if x < m {
                    assert(old_p[old_q[x]] == x);
                }
            }
            assert forall|i: int, j: int| 0 <= i < j < m + 1 implies lex_before(
                kt1,
                #[trigger] p[i],
                #[trigger] p[j],
            ) by {
                if i < pos && j < pos {
                    assert(lex_before(kt, old_p[i], old_p[j]));
                } else if i < pos && j == pos {
                    assert(old_keys[i] <= k);
                } else if i < pos && j > pos {
                    assert(lex_before(kt, old_p[i], old_p[j - 1]));
                } else if i == pos {
                    assert(old_keys[j - 1] > k);
                } else {
                    assert(lex_before(kt, old_p[i - 1], old_p[j - 1]));
                }
            }
        }
        m = m + 1;
    }
    assert(keys@.take(n as int) =~= keys@);
    assert(is_stable_order(p, q, keys@));
    out
}

} // verus!
