//! Stable sorting of entries by a selectable column.

use vstd::prelude::*;
use crate::entry::{Entry, key_eq, key_le, lemma_key_le_total, lemma_key_le_trans};
use crate::fields::Fields;

verus! {

/// The sequence is ordered by the column's sort order.
pub open spec fn sorted_by(s: Seq<Entry>, f: Fields) -> bool {
    forall|i: int, j: int| 0 <= i < j < s.len() ==> key_le(s[i]@, s[j]@, f)
}

/// `r` is `orig` rearranged by the index map `p` — position `k` of the
/// result holds the entry from position `p[k]` of the original — and
/// entries that rank the same keep their original relative order.
pub open spec fn stable_perm(orig: Seq<Entry>, r: Seq<Entry>, p: Seq<int>, f: Fields) -> bool {
    &&& p.len() == orig.len()
    &&& r.len() == orig.len()
    &&& (forall|k: int| 0 <= k < p.len() ==> 0 <= #[trigger] p[k] < orig.len())
    &&& (forall|k: int, l: int| 0 <= k < l < p.len() ==> p[k] != p[l])
    &&& (forall|k: int| 0 <= k < r.len() ==> #[trigger] r[k] == orig[p[k]])
    &&& (forall|k: int, l: int|
        0 <= k < l < r.len() && key_eq(r[k]@, r[l]@, f) ==> p[k] < p[l])
}

/// Element `c` of a sequence after an insertion at position `k`.
proof fn lemma_insert_index<A>(s: Seq<A>, k: int, x: A)
    requires
        0 <= k <= s.len(),
    ensures
        s.insert(k, x).len() == s.len() + 1,
        forall|c: int| 0 <= c < k ==> #[trigger] s.insert(k, x)[c] == s[c],
        s.insert(k, x)[k] == x,
        forall|c: int| k < c <= s.len() ==> #[trigger] s.insert(k, x)[c] == s[c - 1],
{
}

/// Whether `a` ranks at or below `b` in the column's order.
pub fn entry_le(a: &Entry, b: &Entry, f: Fields) -> (r: bool)
    ensures
        r == key_le(a@, b@, f),
{
    let c = a.cmp(b, f);
    match c {
        core::cmp::Ordering::Greater => {
            proof {
                lemma_key_le_total(a@, b@, f);
            }
            false
        },
        _ => true,
    }
}

/// A copy of the entries, ordered by the given column; entries that rank
/// the same stay in their original relative order (the sort is stable).
pub fn sort_entries(v: &Vec<Entry>, f: Fields) -> (r: Vec<Entry>)
    ensures
        sorted_by(r@, f),
        exists|p: Seq<int>| stable_perm(v@, r@, p, f),
{
    let n = v.len();
    let mut out: Vec<Entry> = Vec::new();
    let ghost mut p: Seq<int> = Seq::empty();
    let mut i: usize = 0;
    while i < n
        invariant
            i <= n,
            n == v@.len(),
            out@.len() == i,
            p.len() == i,
            forall|c: int| 0 <= c < i ==> 0 <= #[trigger] p[c] < i,
            forall|c: int, d: int| 0 <= c < d < i ==> p[c] != p[d],
            forall|c: int| 0 <= c < i ==> #[trigger] out@[c] == v@[p[c]],
            forall|c: int, d: int| 0 <= c < d < i ==> key_le(out@[c]@, out@[d]@, f),
            forall|c: int, d: int|
                0 <= c < d < i && key_eq(out@[c]@, out@[d]@, f) ==> p[c] < p[d],
        decreases n - i,
    {
        let x = (&v[i]).clone();
        let mut k = out.len();
        while k > 0 && !entry_le(&out[k - 1], &x, f)
            invariant
                k <= out@.len(),
                out@.len() == i <= n,
                n == v@.len(),
                x == v@[i as int],
                forall|c: int, d: int| 0 <= c < d < i ==> key_le(out@[c]@, out@[d]@, f),
                forall|m: int| k <= m < i ==> !key_le(out@[m]@, x@, f),
            decreases k,
        {
            k -= 1;
        }
        proof {
            let ghost old_out = out@;
            let ghost old_p = p;
            lemma_insert_index(old_out, k as int, x);
            lemma_insert_index(old_p, k as int, i as int);
            assert forall|m: int| k <= m < i implies key_le(x@, old_out[m]@, f) by {
                lemma_key_le_total(x@, old_out[m]@, f);
            }
            assert forall|c: int| 0 <= c < k implies key_le(old_out[c]@, x@, f) by {
                if k > 0 && c < k - 1 {
                    lemma_key_le_trans(old_out[c]@, old_out[k - 1]@, x@, f);
                }
            }
        }
        proof {
            p = p.insert(k as int, i as int);
        }
        out.insert(k, x);
        i += 1;
    }
    proof {
        assert(stable_perm(v@, out@, p, f));
    }
    out
}

} // verus!
