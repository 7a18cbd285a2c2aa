use vstd::prelude::*;
use vstd::relations::{sorted_by, total_ordering};

use crate::contract::{
    composite_after, range_seq, scalar_range_save_post, sequence_range_save_post,
};
use crate::error::ContractError;
use crate::sort::sorted_asc;
use crate::staking::StakingInstruction;
use crate::state::distinct_addrs;
use crate::store::StoreView;
use crate::validator::{lemma_select_preserves_distinct, register_post, select_new};

verus! {

/// Idempotent add: a registration call against a duplicate-free roster leaves
/// the roster duplicate-free, whether it succeeds or fails. Since the roster
/// starts empty and only registration extends it, no sequence of calls ever
/// produces a duplicate address.
pub proof fn lemma_register_keeps_roster_distinct(
    pre: StoreView,
    post: StoreView,
    r: Result<Vec<StakingInstruction>, ContractError>,
    catalog: Seq<String>,
    n: u64,
)
    requires
        register_post(pre, post, r, catalog, n),
        pre.state matches Some(st) && distinct_addrs(st.roster),
    ensures
        post.state matches Some(st2) && distinct_addrs(st2.roster),
{
    let st = pre.state->Some_0;
    let picks = select_new(catalog, st.roster, n as nat);
    if picks.len() >= n {
        lemma_select_preserves_distinct(catalog, st.roster, n as nat);
    }
}

/// Range determinism: saving the scalar over any non-empty range `a ..= b`
/// succeeds and leaves the counter at `b`, so a following load returns `b`.
pub proof fn lemma_range_determinism(
    pre: StoreView,
    post: StoreView,
    r: Result<(), ContractError>,
    a: u64,
    b: u64,
)
    requires
        a <= b,
        pre.state is Some,
        scalar_range_save_post(pre, post, r, a, b),
    ensures
        r == Ok::<(), ContractError>(()),
        post.state matches Some(st) && st.counter == b,
{
}

/// Append length: saving a range `a ..= b` of sequence values grows the
/// stored sequence by exactly `b - a + 1` elements.
pub proof fn lemma_append_length(
    pre: StoreView,
    post: StoreView,
    r: Result<(), ContractError>,
    a: u64,
    b: u64,
)
    requires
        a <= b,
        pre.state is Some,
        sequence_range_save_post(pre, post, r, a, b),
    ensures
        r == Ok::<(), ContractError>(()),
        post.state matches Some(st2) && st2.sequence.len() == pre.state->Some_0.sequence.len() + (
        b - a + 1),
{
    assert(range_seq(a as int, b as int).len() == b - a + 1);
}

/// The ascending sort of a sequence is unique: two sorted sequences holding
/// the same elements are equal. Together with the sorted read's contract
/// (sorted result, same elements, store untouched) this pins that read to
/// exactly the ascending sort of the stored sequence.
pub proof fn lemma_sorted_permutation_unique(s1: Seq<u64>, s2: Seq<u64>)
    requires
        sorted_asc(s1),
        sorted_asc(s2),
        s1.to_multiset() == s2.to_multiset(),
    ensures
        s1 == s2,
{
    let leq = |x: u64, y: u64| x <= y;
    assert(total_ordering(leq));
    assert(sorted_by(s1, leq));
    assert(sorted_by(s2, leq));
    vstd::seq_lib::lemma_sorted_unique(s1, s2, leq);
}

/// Composite round trip: saving the one-point run `v ..= v` under `(k1, k2)`
/// stores exactly `v` there and touches no other pair, so loading `(k1, k2)`
/// returns `v` and loading any other pair fails precisely when it failed
/// before.
pub proof fn lemma_composite_round_trip(m: Map<(u64, u64), u128>, k1: u64, k2: u64, v: u64)
    ensures
        composite_after(m, k1 as int, k2 as int, v as int, v as int) == m.insert(
            (k1, k2),
            v as u128,
        ),
        composite_after(m, k1 as int, k2 as int, v as int, v as int)[(k1, k2)] == v as u128,
        forall|other: (u64, u64)|
            other != (k1, k2) ==> (#[trigger] composite_after(
                m,
                k1 as int,
                k2 as int,
                v as int,
                v as int,
            ).contains_key(other) <==> m.contains_key(other)),
        forall|other: (u64, u64)|
            other != (k1, k2) && m.contains_key(other) ==> #[trigger] composite_after(
                m,
                k1 as int,
                k2 as int,
                v as int,
                v as int,
            )[other] == m[other],
{
    let m2 = m.insert((k1, k2), v as u128);
    assert(composite_after(m2, k1 as int + 1, k2 as int + 1, v as int + 1, v as int) == m2);
}

/// Shortfall failure: when the catalog holds fewer fresh addresses than were
/// requested, registration fails with NotEnoughValidatorsFound and the store
/// is left exactly as it was — the shortfall is detected before any roster
/// write, so not even a partial batch is registered.
pub proof fn lemma_shortfall_failure(
    pre: StoreView,
    post: StoreView,
    r: Result<Vec<StakingInstruction>, ContractError>,
    catalog: Seq<String>,
    n: u64,
)
    requires
        register_post(pre, post, r, catalog, n),
        pre.state matches Some(st) && select_new(catalog, st.roster, n as nat).len() < n,
    ensures
        r matches Err(e) && e == ContractError::NotEnoughValidatorsFound,
        post == pre,
{
}

} // verus!
