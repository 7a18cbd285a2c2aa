use vstd::prelude::*;
use vstd::seq_lib::{to_multiset_build, to_multiset_insert};

verus! {

/// Spec: `s` is sorted in ascending numeric order.
pub open spec fn sorted_asc(s: Seq<u64>) -> bool {
    forall|i: int, j: int| 0 <= i < j < s.len() ==> s[i] <= s[j]
}

/// The first index of `out` whose element exceeds `x` (or `out.len()` if none
/// does); in a sorted vector this is the place where `x` can be inserted.
fn insert_pos(out: &Vec<u64>, x: u64) -> (p: usize)
    requires
        sorted_asc(out@),
    ensures
        p <= out@.len(),
        forall|t: int| 0 <= t < p ==> out@[t] <= x,
        forall|t: int| p <= t < out@.len() ==> x < out@[t],
{
    let mut p: usize = 0;
    while p < out.len()
        invariant
            p <= out.len(),
            sorted_asc(out@),
            forall|t: int| 0 <= t < p ==> out@[t] <= x,
        decreases out.len() - p,
    {
        if out[p] > x {
            assert forall|t: int| p <= t < out@.len() implies x < out@[t] by {
                assert(out@[p as int] <= out@[t]);
            }
            return p;
        }
        p += 1;
    }
    p
}

/// Returns a copy of `v` sorted ascending; the elements (with multiplicity)
/// are exactly those of `v`.
pub fn sort_u64s(v: &Vec<u64>) -> (r: Vec<u64>)
    ensures
        sorted_asc(r@),
        r@.to_multiset() == v@.to_multiset(),
{
    let mut out: Vec<u64> = Vec::new();
    let mut i: usize = 0;
    proof {
        assert(v@.take(0) =~= Seq::<u64>::empty());
    }
    while i < v.len()
        invariant
            i <= v.len(),
            sorted_asc(out@),
            out@.to_multiset() == v@.take(i as int).to_multiset(),
        decreases v.len() - i,
    {
        let x = v[i];
        let p = insert_pos(&out, x);
        let ghost prev = out@;
        out.insert(p, x);
        proof {
            to_multiset_insert(prev, p as int, x);
            assert(v@.take(i as int + 1).drop_last() =~= v@.take(i as int));
            to_multiset_build(v@.take(i as int + 1).drop_last(), v@[i as int]);
            assert(v@.take(i as int + 1).drop_last().push(v@[i as int]) =~= v@.take(i as int + 1));
            assert forall|a: int, b: int| 0 <= a < b < out@.len() implies out@[a] <= out@[b] by {
                if b < p {
                    assert(out@[a] == prev[a] && out@[b] == prev[b]);
                } else if a < p && b == p {
                    assert(out@[a] == prev[a] && prev[a] <= x);
                } else if a < p && b > p {
                    assert(out@[a] == prev[a] && out@[b] == prev[b - 1]);
                    assert(prev[a] <= x && x < prev[b - 1]);
                } else if a == p {
                    assert(out@[a] == x && out@[b] == prev[b - 1] && x < prev[b - 1]);
                } else {
                    assert(out@[a] == prev[a - 1] && out@[b] == prev[b - 1]);
                }
            }
        }
        i += 1;
    }
    proof {
        assert(v@.take(v@.len() as int) =~= v@);
    }
    out
}

} // verus!
