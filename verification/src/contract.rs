use vstd::prelude::*;

use crate::error::ContractError;
use crate::msg::{BenchmarkExecuteMsg, BenchmarkQueryMsg, InstantiateMsg, QueryAnswer};
use crate::sort::sorted_asc;
use crate::staking::{is_withdraw, StakingInstruction};
use crate::state::{State, StateView};
use crate::store::{Store, StoreView};
use crate::validator::{each_delegate, each_undelegate, first_n_post, register_post};

verus! {

// ---------------------------------------------------------------------------
// Range semantics, stated over store views.
// ---------------------------------------------------------------------------

/// The ascending run of integers `a ..= b` (empty when `a > b`).
pub open spec fn range_seq(a: int, b: int) -> Seq<u64> {
    if a > b {
        Seq::empty()
    } else {
        Seq::new((b - a + 1) as nat, |k: int| (a + k) as u64)
    }
}

/// The composite-key table after saving the run `v ..= ve`, the two key
/// components starting at `(k1, k2)` and advancing in lock-step with the
/// value.
pub open spec fn composite_after(m: Map<(u64, u64), u128>, k1: int, k2: int, v: int, ve: int) -> Map<
    (u64, u64),
    u128,
>
    decreases ve - v + 1,
{
    if v > ve {
        m
    } else {
        composite_after(m.insert(((k1 as u64), (k2 as u64)), v as u128), k1 + 1, k2 + 1, v + 1, ve)
    }
}

/// The keyed-sequence walk over the run `v ..= ve`: each step appends
/// `(k2, v)` to the list stored at `k1`, all three advancing in lock-step.
/// A step whose key was never saved stops the walk; the flag says whether
/// every step found its key, and the table keeps the appends already made.
pub open spec fn keyed_run(m: Map<u64, Seq<(u64, u128)>>, k1: int, k2: int, v: int, ve: int) -> (
    Map<u64, Seq<(u64, u128)>>,
    bool,
)
    decreases ve - v + 1,
{
    if v > ve {
        (m, true)
    } else if !m.contains_key(k1 as u64) {
        (m, false)
    } else {
        keyed_run(
            m.insert(k1 as u64, m[k1 as u64].push(((k2 as u64), (v as u128)))),
            k1 + 1,
            k2 + 1,
            v + 1,
            ve,
        )
    }
}

// ---------------------------------------------------------------------------
// Operation postconditions.
// ---------------------------------------------------------------------------

/// Saving the scalar over a range: every integer of `a ..= b` is written in
/// turn, so the counter ends at `b`; an empty range stores the record back
/// unchanged. Fails with NotFound when the state record was never created.
pub open spec fn scalar_range_save_post(
    pre: StoreView,
    post: StoreView,
    r: Result<(), ContractError>,
    a: u64,
    b: u64,
) -> bool {
    match pre.state {
        None => r == Err::<(), ContractError>(ContractError::NotFound) && post == pre,
        Some(st) => r == Ok::<(), ContractError>(()) && (if a <= b {
            post == (StoreView { state: Some(StateView { counter: b, ..st }), ..pre })
        } else {
            post == pre
        }),
    }
}

/// Updating the scalar over a range: same net effect as the save variant, but
/// each step is its own atomic update, so an empty range touches nothing and
/// succeeds even without a state record.
pub open spec fn scalar_range_update_post(
    pre: StoreView,
    post: StoreView,
    r: Result<(), ContractError>,
    a: u64,
    b: u64,
) -> bool {
    if a > b {
        r == Ok::<(), ContractError>(()) && post == pre
    } else {
        match pre.state {
            None => r == Err::<(), ContractError>(ContractError::NotFound) && post == pre,
            Some(st) => r == Ok::<(), ContractError>(()) && post == (StoreView {
                state: Some(StateView { counter: b, ..st }),
                ..pre
            }),
        }
    }
}

/// Appending a range to the numeric sequence: each integer of `a ..= b` is
/// pushed once, in ascending order. Fails with NotFound when the state record
/// was never created.
pub open spec fn sequence_range_save_post(
    pre: StoreView,
    post: StoreView,
    r: Result<(), ContractError>,
    a: u64,
    b: u64,
) -> bool {
    match pre.state {
        None => r == Err::<(), ContractError>(ContractError::NotFound) && post == pre,
        Some(st) => r == Ok::<(), ContractError>(()) && post == (StoreView {
            state: Some(StateView { sequence: st.sequence + range_seq(a as int, b as int), ..st }),
            ..pre
        }),
    }
}

/// Appending a range through the atomic update path: same net effect, but an
/// empty range touches nothing and succeeds even without a state record.
pub open spec fn sequence_range_update_post(
    pre: StoreView,
    post: StoreView,
    r: Result<(), ContractError>,
    a: u64,
    b: u64,
) -> bool {
    if a > b {
        r == Ok::<(), ContractError>(()) && post == pre
    } else {
        match pre.state {
            None => r == Err::<(), ContractError>(ContractError::NotFound) && post == pre,
            Some(st) => r == Ok::<(), ContractError>(()) && post == (StoreView {
                state: Some(
                    StateView { sequence: st.sequence + range_seq(a as int, b as int), ..st },
                ),
                ..pre
            }),
        }
    }
}

/// Writing a run of values into the composite-key table: always succeeds,
/// every point is an independent save.
pub open spec fn composite_range_post(
    pre: StoreView,
    post: StoreView,
    r: Result<(), ContractError>,
    k1s: u64,
    k2s: u64,
    vs: u64,
    ve: u64,
) -> bool {
    r == Ok::<(), ContractError>(()) && post == (StoreView {
        composite: composite_after(pre.composite, k1s as int, k2s as int, vs as int, ve as int),
        ..pre
    })
}

/// Walking a run of values through the keyed-sequence table: appends succeed
/// step by step until one key turns out never to have been saved; that step
/// fails the call with NotFound but the earlier appends stay.
pub open spec fn keyed_range_post(
    pre: StoreView,
    post: StoreView,
    r: Result<(), ContractError>,
    k1s: u64,
    k2s: u64,
    vs: u64,
    ve: u64,
) -> bool {
    let run = keyed_run(pre.keyed, k1s as int, k2s as int, vs as int, ve as int);
    post == (StoreView { keyed: run.0, ..pre }) && (if run.1 {
        r == Ok::<(), ContractError>(())
    } else {
        r == Err::<(), ContractError>(ContractError::NotFound)
    })
}

/// A load issued from the execute path: reads (and possibly sorts a copy of)
/// the state record, changes nothing, and fails with NotFound only when the
/// record was never created.
pub open spec fn exec_probe_post(
    pre: StoreView,
    post: StoreView,
    r: Result<(), ContractError>,
) -> bool {
    post == pre && (match pre.state {
        Some(_) => r == Ok::<(), ContractError>(()),
        None => r == Err::<(), ContractError>(ContractError::NotFound),
    })
}

// ---------------------------------------------------------------------------
// Range operations.
// ---------------------------------------------------------------------------

impl Store {
    /// Saves every integer of `num_to_save_start ..= num_to_save_end` to the
    /// scalar counter in turn; the net effect is that the counter holds the
    /// end of the range. Each intermediate write is persisted individually.
    pub fn save_scalar_range(&mut self, num_to_save_start: u64, num_to_save_end: u64) -> (r: Result<
        (),
        ContractError,
    >)
        requires
            old(self).inv(),
        ensures
            final(self).inv(),
            scalar_range_save_post(old(self)@, final(self)@, r, num_to_save_start, num_to_save_end),
    {
        if !self.has_state() {
            return Err(ContractError::NotFound);
        }
        if num_to_save_start > num_to_save_end {
            return Ok(());
        }
        let mut x = num_to_save_start;
        loop
            invariant_except_break
                self.inv(),
                num_to_save_start <= x <= num_to_save_end,
                old(self)@.state is Some,
                x == num_to_save_start ==> self@ == old(self)@,
                x > num_to_save_start ==> self@ == (StoreView {
                    state: Some(
                        StateView { counter: (x - 1) as u64, ..old(self)@.state->Some_0 },
                    ),
                    ..old(self)@
                }),
            ensures
                self.inv(),
                old(self)@.state is Some,
                self@ == (StoreView {
                    state: Some(
                        StateView { counter: num_to_save_end, ..old(self)@.state->Some_0 },
                    ),
                    ..old(self)@
                }),
            decreases num_to_save_end - x,
        {
            match self.save_scalar(x) {
                Ok(()) => {},
                Err(e) => {
                    return Err(e);
                },
            }
            if x == num_to_save_end {
                break ;
            }
            x += 1;
        }
        Ok(())
    }

    /// Same net effect as `save_scalar_range`, routed through the atomic
    /// update path: each step is one independent atomic update, so an empty
    /// range issues no update at all.
    pub fn update_scalar_range(&mut self, num_to_update_start: u64, num_to_update_end: u64) -> (r:
        Result<(), ContractError>)
        requires
            old(self).inv(),
        ensures
            final(self).inv(),
            scalar_range_update_post(
                old(self)@,
                final(self)@,
                r,
                num_to_update_start,
                num_to_update_end,
            ),
    {
        if num_to_update_start > num_to_update_end {
            return Ok(());
        }
        let mut x = num_to_update_start;
        loop
            invariant_except_break
                self.inv(),
                num_to_update_start <= x <= num_to_update_end,
                x == num_to_update_start ==> self@ == old(self)@,
                x > num_to_update_start ==> old(self)@.state is Some && self@ == (StoreView {
                    state: Some(
                        StateView { counter: (x - 1) as u64, ..old(self)@.state->Some_0 },
                    ),
                    ..old(self)@
                }),
            ensures
                self.inv(),
                old(self)@.state is Some,
                self@ == (StoreView {
                    state: Some(
                        StateView { counter: num_to_update_end, ..old(self)@.state->Some_0 },
                    ),
                    ..old(self)@
                }),
            decreases num_to_update_end - x,
        {
            match self.update_scalar(x) {
                Ok(()) => {},
                Err(e) => {
                    return Err(e);
                },
            }
            if x == num_to_update_end {
                break ;
            }
            x += 1;
        }
        Ok(())
    }

    /// Appends every integer of `num_to_save_start ..= num_to_save_end` to the
    /// numeric sequence, in ascending order; the sequence grows by the length
    /// of the range.
    pub fn save_sequence_value_range(&mut self, num_to_save_start: u64, num_to_save_end: u64) -> (r:
        Result<(), ContractError>)
        requires
            old(self).inv(),
        ensures
            final(self).inv(),
            sequence_range_save_post(
                old(self)@,
                final(self)@,
                r,
                num_to_save_start,
                num_to_save_end,
            ),
    {
        if !self.has_state() {
            return Err(ContractError::NotFound);
        }
        if num_to_save_start > num_to_save_end {
            proof {
                let st = old(self)@.state->Some_0;
                assert(st.sequence + range_seq(
                    num_to_save_start as int,
                    num_to_save_end as int,
                ) =~= st.sequence);
                assert(old(self)@ =~= (StoreView {
                    state: Some(
                        StateView {
                            sequence: st.sequence + range_seq(
                                num_to_save_start as int,
                                num_to_save_end as int,
                            ),
                            ..st
                        },
                    ),
                    ..old(self)@
                }));
            }
            return Ok(());
        }
        let mut x = num_to_save_start;
        proof {
            let st = old(self)@.state->Some_0;
            assert(st.sequence + range_seq(num_to_save_start as int, num_to_save_start - 1)
                =~= st.sequence);
            assert(old(self)@ =~= (StoreView {
                state: Some(
                    StateView {
                        sequence: st.sequence + range_seq(
                            num_to_save_start as int,
                            num_to_save_start - 1,
                        ),
                        ..st
                    },
                ),
                ..old(self)@
            }));
        }
        loop
            invariant_except_break
                self.inv(),
                num_to_save_start <= x <= num_to_save_end,
                old(self)@.state is Some,
                self@ == (StoreView {
                    state: Some(
                        StateView {
                            sequence: old(self)@.state->Some_0.sequence + range_seq(
                                num_to_save_start as int,
                                x - 1,
                            ),
                            ..old(self)@.state->Some_0
                        },
                    ),
                    ..old(self)@
                }),
            ensures
                self.inv(),
                old(self)@.state is Some,
                self@ == (StoreView {
                    state: Some(
                        StateView {
                            sequence: old(self)@.state->Some_0.sequence + range_seq(
                                num_to_save_start as int,
                                num_to_save_end as int,
                            ),
                            ..old(self)@.state->Some_0
                        },
                    ),
                    ..old(self)@
                }),
            decreases num_to_save_end - x,
        {
            match self.save_sequence_value(x) {
                Ok(()) => {},
                Err(e) => {
                    return Err(e);
                },
            }
            proof {
                let st = old(self)@.state->Some_0;
                assert((st.sequence + range_seq(num_to_save_start as int, x - 1)).push(x)
                    =~= st.sequence + range_seq(num_to_save_start as int, x as int));
            }
            if x == num_to_save_end {
                break ;
            }
            x += 1;
        }
        Ok(())
    }

    /// Same net effect as `save_sequence_value_range`, routed through the
    /// atomic update path: the updater replaces the sequence with the
    /// precomputed appended copy, one independent update per step, so an
    /// empty range issues no update at all.
    pub fn update_sequence_value_range(
        &mut self,
        num_to_update_start: u64,
        num_to_update_end: u64,
    ) -> (r: Result<(), ContractError>)
        requires
            old(self).inv(),
        ensures
            final(self).inv(),
            sequence_range_update_post(
                old(self)@,
                final(self)@,
                r,
                num_to_update_start,
                num_to_update_end,
            ),
    {
        if num_to_update_start > num_to_update_end {
            return Ok(());
        }
        let mut x = num_to_update_start;
        loop
            invariant_except_break
                self.inv(),
                num_to_update_start <= x <= num_to_update_end,
                x == num_to_update_start ==> self@ == old(self)@,
                x > num_to_update_start ==> old(self)@.state is Some && self@ == (StoreView {
                    state: Some(
                        StateView {
                            sequence: old(self)@.state->Some_0.sequence + range_seq(
                                num_to_update_start as int,
                                x - 1,
                            ),
                            ..old(self)@.state->Some_0
                        },
                    ),
                    ..old(self)@
                }),
            ensures
                self.inv(),
                old(self)@.state is Some,
                self@ == (StoreView {
                    state: Some(
                        StateView {
                            sequence: old(self)@.state->Some_0.sequence + range_seq(
                                num_to_update_start as int,
                                num_to_update_end as int,
                            ),
                            ..old(self)@.state->Some_0
                        },
                    ),
                    ..old(self)@
                }),
            decreases num_to_update_end - x,
        {
            match self.update_sequence_value(x) {
                Ok(()) => {},
                Err(e) => {
                    return Err(e);
                },
            }
            proof {
                let st = old(self)@.state->Some_0;
                if x == num_to_update_start {
                    assert(st.sequence + range_seq(
                        num_to_update_start as int,
                        num_to_update_start - 1,
                    ) =~= st.sequence);
                }
                assert((st.sequence + range_seq(num_to_update_start as int, x - 1)).push(x)
                    =~= st.sequence + range_seq(num_to_update_start as int, x as int));
            }
            if x == num_to_update_end {
                break ;
            }
            x += 1;
        }
        Ok(())
    }

    /// Saves the run `value_start ..= value_end` into the composite-key table,
    /// the key components starting at `(first_key_start, second_key_start)`
    /// and advancing in lock-step with the value; each point is an
    /// independent save.
    pub fn save_composite(
        &mut self,
        first_key_start: u64,
        second_key_start: u64,
        value_start: u64,
        value_end: u64,
    ) -> (r: Result<(), ContractError>)
        requires
            old(self).inv(),
            value_start <= value_end ==> first_key_start + (value_end - value_start) <= u64::MAX
                && second_key_start + (value_end - value_start) <= u64::MAX,
        ensures
            final(self).inv(),
            composite_range_post(
                old(self)@,
                final(self)@,
                r,
                first_key_start,
                second_key_start,
                value_start,
                value_end,
            ),
    {
        if value_start > value_end {
            proof {
                assert(old(self)@ =~= (StoreView {
                    composite: composite_after(
                        old(self)@.composite,
                        first_key_start as int,
                        second_key_start as int,
                        value_start as int,
                        value_end as int,
                    ),
                    ..old(self)@
                }));
            }
            return Ok(());
        }
        let mut x = value_start;
        let mut k1 = first_key_start;
        let mut k2 = second_key_start;
        loop
            invariant_except_break
                self.inv(),
                value_start <= x <= value_end,
                k1 as int == first_key_start + (x - value_start),
                k2 as int == second_key_start + (x - value_start),
                first_key_start + (value_end - value_start) <= u64::MAX,
                second_key_start + (value_end - value_start) <= u64::MAX,
                self@.state == old(self)@.state,
                self@.keyed == old(self)@.keyed,
                composite_after(
                    old(self)@.composite,
                    first_key_start as int,
                    second_key_start as int,
                    value_start as int,
                    value_end as int,
                ) == composite_after(self@.composite, k1 as int, k2 as int, x as int, value_end as int),
            ensures
                self.inv(),
                self@ == (StoreView {
                    composite: composite_after(
                        old(self)@.composite,
                        first_key_start as int,
                        second_key_start as int,
                        value_start as int,
                        value_end as int,
                    ),
                    ..old(self)@
                }),
            decreases value_end - x,
        {
            let ghost prev = self@.composite;
            self.save_composite_entry(k1, k2, x as u128);
            proof {
                assert(composite_after(prev, k1 as int, k2 as int, x as int, value_end as int)
                    == composite_after(
                    self@.composite,
                    k1 as int + 1,
                    k2 as int + 1,
                    x as int + 1,
                    value_end as int,
                ));
            }
            if x == value_end {
                proof {
                    assert(self@ =~= (StoreView {
                        composite: composite_after(
                            old(self)@.composite,
                            first_key_start as int,
                            second_key_start as int,
                            value_start as int,
                            value_end as int,
                        ),
                        ..old(self)@
                    }));
                }
                break ;
            }
            x += 1;
            k1 += 1;
            k2 += 1;
        }
        Ok(())
    }

    /// Identical key and value generation to `save_composite`, routed through
    /// the atomic update path; the target key is created when absent, so the
    /// net effect matches the save variant point for point.
    pub fn update_composite(
        &mut self,
        first_key_start: u64,
        second_key_start: u64,
        value_start: u64,
        value_end: u64,
    ) -> (r: Result<(), ContractError>)
        requires
            old(self).inv(),
            value_start <= value_end ==> first_key_start + (value_end - value_start) <= u64::MAX
                && second_key_start + (value_end - value_start) <= u64::MAX,
        ensures
            final(self).inv(),
            composite_range_post(
                old(self)@,
                final(self)@,
                r,
                first_key_start,
                second_key_start,
                value_start,
                value_end,
            ),
    {
        self.save_composite(first_key_start, second_key_start, value_start, value_end)
    }

    /// Walks the run `value_start ..= value_end` through the keyed-sequence
    /// table: each step loads the list stored at the current first key
    /// (failing with NotFound when that key was never saved), appends the
    /// current `(second key, value)` pair, and saves it back; all three
    /// advance in lock-step, so each step in general touches a different key.
    /// Appends made before a failing step stay.
    pub fn save_keyed_sequence(
        &mut self,
        first_key_start: u64,
        second_key_start: u64,
        value_start: u64,
        value_end: u64,
    ) -> (r: Result<(), ContractError>)
        requires
            old(self).inv(),
            value_start <= value_end ==> first_key_start + (value_end - value_start) <= u64::MAX
                && second_key_start + (value_end - value_start) <= u64::MAX,
        ensures
            final(self).inv(),
            keyed_range_post(
                old(self)@,
                final(self)@,
                r,
                first_key_start,
                second_key_start,
                value_start,
                value_end,
            ),
    {
        if value_start > value_end {
            proof {
                assert(old(self)@ =~= (StoreView {
                    keyed: keyed_run(
                        old(self)@.keyed,
                        first_key_start as int,
                        second_key_start as int,
                        value_start as int,
                        value_end as int,
                    ).0,
                    ..old(self)@
                }));
            }
            return Ok(());
        }
        let mut x = value_start;
        let mut k1 = first_key_start;
        let mut k2 = second_key_start;
        loop
            invariant_except_break
                self.inv(),
                value_start <= x <= value_end,
                k1 as int == first_key_start + (x - value_start),
                k2 as int == second_key_start + (x - value_start),
                first_key_start + (value_end - value_start) <= u64::MAX,
                second_key_start + (value_end - value_start) <= u64::MAX,
                self@.state == old(self)@.state,
                self@.composite == old(self)@.composite,
                keyed_run(
                    old(self)@.keyed,
                    first_key_start as int,
                    second_key_start as int,
                    value_start as int,
                    value_end as int,
                ) == keyed_run(self@.keyed, k1 as int, k2 as int, x as int, value_end as int),
            ensures
                self.inv(),
                self@.state == old(self)@.state,
                self@.composite == old(self)@.composite,
                keyed_run(
                    old(self)@.keyed,
                    first_key_start as int,
                    second_key_start as int,
                    value_start as int,
                    value_end as int,
                ) == (self@.keyed, true),
            decreases value_end - x,
        {
            let mut items = match self.load_keyed_sequence(k1) {
                Ok(v) => v,
                Err(_) => {
                    proof {
                        assert(final(self)@ =~= (StoreView {
                            keyed: keyed_run(
                                old(self)@.keyed,
                                first_key_start as int,
                                second_key_start as int,
                                value_start as int,
                                value_end as int,
                            ).0,
                            ..old(self)@
                        }));
                    }
                    return Err(ContractError::NotFound);
                },
            };
            let ghost prev = self@.keyed;
            items.push((k2, x as u128));
            let ghost items_view = items@;
            self.save_keyed_entry(k1, items);
            proof {
                assert(items_view == prev[k1].push(((k2), (x as u128))));
                assert(keyed_run(prev, k1 as int, k2 as int, x as int, value_end as int)
                    == keyed_run(
                    self@.keyed,
                    k1 as int + 1,
                    k2 as int + 1,
                    x as int + 1,
                    value_end as int,
                ));
            }
            if x == value_end {
                break ;
            }
            x += 1;
            k1 += 1;
            k2 += 1;
        }
        proof {
            assert(self@ =~= (StoreView {
                keyed: keyed_run(
                    old(self)@.keyed,
                    first_key_start as int,
                    second_key_start as int,
                    value_start as int,
                    value_end as int,
                ).0,
                ..old(self)@
            }));
        }
        Ok(())
    }

    /// Same load-append-save walk as `save_keyed_sequence`, with the final
    /// write of each step issued through the atomic update primitive; the
    /// updater replaces the list with the precomputed appended copy, so the
    /// net result is the same.
    pub fn update_keyed_sequence(
        &mut self,
        first_key_start: u64,
        second_key_start: u64,
        value_start: u64,
        value_end: u64,
    ) -> (r: Result<(), ContractError>)
        requires
            old(self).inv(),
            value_start <= value_end ==> first_key_start + (value_end - value_start) <= u64::MAX
                && second_key_start + (value_end - value_start) <= u64::MAX,
        ensures
            final(self).inv(),
            keyed_range_post(
                old(self)@,
                final(self)@,
                r,
                first_key_start,
                second_key_start,
                value_start,
                value_end,
            ),
    {
        self.save_keyed_sequence(first_key_start, second_key_start, value_start, value_end)
    }
}

// ---------------------------------------------------------------------------
// Dispatch semantics.
// ---------------------------------------------------------------------------

/// Maps an execute result to its unit shape, for the storage operations that
/// return no instructions.
pub open spec fn unit_of(r: Result<Vec<StakingInstruction>, ContractError>) -> Result<
    (),
    ContractError,
> {
    match r {
        Ok(_) => Ok(()),
        Err(e) => Err(e),
    }
}

/// The storage operations hand back no staking instructions.
pub open spec fn no_instructions(r: Result<Vec<StakingInstruction>, ContractError>) -> bool {
    r matches Ok(m) ==> m@.len() == 0
}

/// Machine limit on the composite and keyed range requests: the keys advance
/// once per value, so the last key of the run must still fit in u64.
pub open spec fn execute_msg_ok(msg: BenchmarkExecuteMsg) -> bool {
    match msg {
        BenchmarkExecuteMsg::MapCompositeKeySave {
            first_key_start,
            second_key_start,
            value_start,
            value_end,
            ..
        } => value_start <= value_end ==> first_key_start + (value_end - value_start) <= u64::MAX
            && second_key_start + (value_end - value_start) <= u64::MAX,
        BenchmarkExecuteMsg::MapCompositeKeyUpdate {
            first_key_start,
            second_key_start,
            value_start,
            value_end,
            ..
        } => value_start <= value_end ==> first_key_start + (value_end - value_start) <= u64::MAX
            && second_key_start + (value_end - value_start) <= u64::MAX,
        BenchmarkExecuteMsg::MapVectorValueSave {
            first_key_start,
            second_key_start,
            value_start,
            value_end,
            ..
        } => value_start <= value_end ==> first_key_start + (value_end - value_start) <= u64::MAX
            && second_key_start + (value_end - value_start) <= u64::MAX,
        BenchmarkExecuteMsg::MapVectorValueUpdate {
            first_key_start,
            second_key_start,
            value_start,
            value_end,
            ..
        } => value_start <= value_end ==> first_key_start + (value_end - value_start) <= u64::MAX
            && second_key_start + (value_end - value_start) <= u64::MAX,
        _ => true,
    }
}

/// What each execute request does to the store and returns, variant by
/// variant, in terms of the operations' own postconditions.
pub open spec fn execute_post(
    pre: StoreView,
    post: StoreView,
    r: Result<Vec<StakingInstruction>, ContractError>,
    catalog: Seq<String>,
    msg: BenchmarkExecuteMsg,
) -> bool {
    match msg {
        BenchmarkExecuteMsg::StateNumSave { num_to_save_start, num_to_save_end } => no_instructions(
            r,
        ) && scalar_range_save_post(pre, post, unit_of(r), num_to_save_start, num_to_save_end),
        BenchmarkExecuteMsg::StateVectorSave { num_to_save_start, num_to_save_end } => no_instructions(
            r,
        ) && sequence_range_save_post(pre, post, unit_of(r), num_to_save_start, num_to_save_end),
        BenchmarkExecuteMsg::StateNumUpdate { num_to_update_start, num_to_update_end } => no_instructions(
            r,
        ) && scalar_range_update_post(pre, post, unit_of(r), num_to_update_start, num_to_update_end),
        BenchmarkExecuteMsg::StateVectorUpdate { num_to_update_start, num_to_update_end } => no_instructions(
            r,
        ) && sequence_range_update_post(
            pre,
            post,
            unit_of(r),
            num_to_update_start,
            num_to_update_end,
        ),
        BenchmarkExecuteMsg::MapCompositeKeySave {
            first_key_start,
            second_key_start,
            value_start,
            value_end,
            ..
        } => no_instructions(r) && composite_range_post(
            pre,
            post,
            unit_of(r),
            first_key_start,
            second_key_start,
            value_start,
            value_end,
        ),
        BenchmarkExecuteMsg::MapCompositeKeyUpdate {
            first_key_start,
            second_key_start,
            value_start,
            value_end,
            ..
        } => no_instructions(r) && composite_range_post(
            pre,
            post,
            unit_of(r),
            first_key_start,
            second_key_start,
            value_start,
            value_end,
        ),
        BenchmarkExecuteMsg::MapVectorValueSave {
            first_key_start,
            second_key_start,
            value_start,
            value_end,
            ..
        } => no_instructions(r) && keyed_range_post(
            pre,
            post,
            unit_of(r),
            first_key_start,
            second_key_start,
            value_start,
            value_end,
        ),
        BenchmarkExecuteMsg::MapVectorValueUpdate {
            first_key_start,
            second_key_start,
            value_start,
            value_end,
            ..
        } => no_instructions(r) && keyed_range_post(
            pre,
            post,
            unit_of(r),
            first_key_start,
            second_key_start,
            value_start,
            value_end,
        ),
        BenchmarkExecuteMsg::StateExecNumsLoad {  } => no_instructions(r) && exec_probe_post(
            pre,
            post,
            unit_of(r),
        ),
        BenchmarkExecuteMsg::StateExecVectorsLoad {  } => no_instructions(r) && exec_probe_post(
            pre,
            post,
            unit_of(r),
        ),
        BenchmarkExecuteMsg::StateExecVectorsLoadSorted {  } => no_instructions(r)
            && exec_probe_post(pre, post, unit_of(r)),
        BenchmarkExecuteMsg::AddStakeValidators { number_of_validators } => register_post(
            pre,
            post,
            r,
            catalog,
            number_of_validators,
        ),
        BenchmarkExecuteMsg::DelegateNValidators { number_of_validators } => post == pre
            && first_n_post(
            pre,
            r,
            number_of_validators,
            |instr: StakingInstruction, v: Seq<char>| each_delegate(instr, v),
        ),
        BenchmarkExecuteMsg::UnDelegateNValidators { number_of_validators } => post == pre
            && first_n_post(
            pre,
            r,
            number_of_validators,
            |instr: StakingInstruction, v: Seq<char>| each_undelegate(instr, v),
        ),
        BenchmarkExecuteMsg::WithdrawNValidatorRewards { number_of_validators } => post == pre
            && first_n_post(
            pre,
            r,
            number_of_validators,
            |instr: StakingInstruction, v: Seq<char>| is_withdraw(instr, v),
        ),
    }
}

/// What each query request returns, variant by variant.
pub open spec fn query_post(
    v: StoreView,
    r: Result<QueryAnswer, ContractError>,
    msg: BenchmarkQueryMsg,
) -> bool {
    match msg {
        BenchmarkQueryMsg::StateNumLoad {  } => match v.state {
            Some(st) => r matches Ok(a) && a matches QueryAnswer::Num(x) && x == st.counter,
            None => r matches Err(e) && e == ContractError::NotFound,
        },
        BenchmarkQueryMsg::StateVectorLoad {  } => match v.state {
            Some(st) => r matches Ok(a) && a matches QueryAnswer::Sequence(xs) && xs@
                == st.sequence,
            None => r matches Err(e) && e == ContractError::NotFound,
        },
        BenchmarkQueryMsg::StateVectorLoadSorted {  } => match v.state {
            Some(st) => r matches Ok(a) && a matches QueryAnswer::Sequence(xs) && sorted_asc(xs@)
                && xs@.to_multiset() == st.sequence.to_multiset(),
            None => r matches Err(e) && e == ContractError::NotFound,
        },
        BenchmarkQueryMsg::MapCompositeKeyLoad { first_key, second_key } => if v.composite.contains_key(
            (first_key, second_key),
        ) {
            r matches Ok(a) && a matches QueryAnswer::CompositeValue(x) && x == v.composite[
                (first_key, second_key)]
        } else {
            r matches Err(e) && e == ContractError::NotFound
        },
        BenchmarkQueryMsg::MapVectorValueLoad { key_to_find } => if v.keyed.contains_key(
            key_to_find,
        ) {
            r matches Ok(a) && a matches QueryAnswer::KeyedSequence(xs) && xs@ == v.keyed[
                key_to_find]
        } else {
            r matches Err(e) && e == ContractError::NotFound
        },
    }
}

// ---------------------------------------------------------------------------
// Entry points.
// ---------------------------------------------------------------------------

/// Creates the singleton state record: counter 1, empty sequence, empty
/// roster. Overwrites whatever record was there before.
pub fn instantiate(store: &mut Store, _msg: InstantiateMsg)
    requires
        old(store).inv(),
    ensures
        final(store).inv(),
        final(store)@ == (StoreView {
            state: Some(
                StateView { counter: 1, sequence: Seq::<u64>::empty(), roster: Seq::<String>::empty() },
            ),
            ..old(store)@
        }),
{
    let record = State { state_num: 1, state_vector: Vec::new(), validator_added: Vec::new() };
    store.state_save(record);
}

/// Routes an inbound execute request to the matching operation. The catalog
/// is the external, ordered, fixed set of known validator addresses that the
/// registration operation consults.
pub fn execute(store: &mut Store, catalog: &Vec<String>, msg: BenchmarkExecuteMsg) -> (r: Result<
    Vec<StakingInstruction>,
    ContractError,
>)
    requires
        old(store).inv(),
        execute_msg_ok(msg),
    ensures
        final(store).inv(),
        execute_post(old(store)@, final(store)@, r, catalog@, msg),
{
    match msg {
        BenchmarkExecuteMsg::StateNumSave { num_to_save_start, num_to_save_end } => {
            match store.save_scalar_range(num_to_save_start, num_to_save_end) {
                Ok(()) => Ok(Vec::new()),
                Err(e) => Err(e),
            }
        },
        BenchmarkExecuteMsg::StateVectorSave { num_to_save_start, num_to_save_end } => {
            match store.save_sequence_value_range(num_to_save_start, num_to_save_end) {
                Ok(()) => Ok(Vec::new()),
                Err(e) => Err(e),
            }
        },
        BenchmarkExecuteMsg::StateNumUpdate { num_to_update_start, num_to_update_end } => {
            match store.update_scalar_range(num_to_update_start, num_to_update_end) {
                Ok(()) => Ok(Vec::new()),
                Err(e) => Err(e),
            }
        },
        BenchmarkExecuteMsg::StateVectorUpdate { num_to_update_start, num_to_update_end } => {
            match store.update_sequence_value_range(num_to_update_start, num_to_update_end) {
                Ok(()) => Ok(Vec::new()),
                Err(e) => Err(e),
            }
        },
        BenchmarkExecuteMsg::MapCompositeKeySave {
            first_key_start,
            second_key_start,
            value_start,
            first_key_end: _,
            second_key_end: _,
            value_end,
        } => {
            match store.save_composite(first_key_start, second_key_start, value_start, value_end) {
                Ok(()) => Ok(Vec::new()),
                Err(e) => Err(e),
            }
        },
        BenchmarkExecuteMsg::MapCompositeKeyUpdate {
            first_key_start,
            second_key_start,
            value_start,
            first_key_end: _,
            second_key_end: _,
            value_end,
        } => {
            match store.update_composite(
                first_key_start,
                second_key_start,
                value_start,
                value_end,
            ) {
                Ok(()) => Ok(Vec::new()),
                Err(e) => Err(e),
            }
        },
        BenchmarkExecuteMsg::MapVectorValueSave {
            first_key_start,
            second_key_start,
            value_start,
            first_key_end: _,
            second_key_end: _,
            value_end,
        } => {
            match store.save_keyed_sequence(
                first_key_start,
                second_key_start,
                value_start,
                value_end,
            ) {
                Ok(()) => Ok(Vec::new()),
                Err(e) => Err(e),
            }
        },
        BenchmarkExecuteMsg::MapVectorValueUpdate {
            first_key_start,
            second_key_start,
            value_start,
            first_key_end: _,
            second_key_end: _,
            value_end,
        } => {
            match store.update_keyed_sequence(
                first_key_start,
                second_key_start,
                value_start,
                value_end,
            ) {
                Ok(()) => Ok(Vec::new()),
                Err(e) => Err(e),
            }
        },
        BenchmarkExecuteMsg::StateExecNumsLoad {  } => {
            match store.load_scalar() {
                Ok(_) => Ok(Vec::new()),
                Err(e) => Err(e),
            }
        },
        BenchmarkExecuteMsg::StateExecVectorsLoad {  } => {
            match store.load_sequence() {
                Ok(_) => Ok(Vec::new()),
                Err(e) => Err(e),
            }
        },
        BenchmarkExecuteMsg::StateExecVectorsLoadSorted {  } => {
            match store.load_sequence_sorted() {
                Ok(_) => Ok(Vec::new()),
                Err(e) => Err(e),
            }
        },
        BenchmarkExecuteMsg::AddStakeValidators { number_of_validators } => {
            store.register_n_validators(catalog, number_of_validators)
        },
        BenchmarkExecuteMsg::DelegateNValidators { number_of_validators } => {
            store.delegate_first_n(number_of_validators)
        },
        BenchmarkExecuteMsg::UnDelegateNValidators { number_of_validators } => {
            store.undelegate_first_n(number_of_validators)
        },
        BenchmarkExecuteMsg::WithdrawNValidatorRewards { number_of_validators } => {
            store.withdraw_rewards_first_n(number_of_validators)
        },
    }
}

/// Routes an inbound query request to the matching pure read.
pub fn query(store: &Store, msg: BenchmarkQueryMsg) -> (r: Result<QueryAnswer, ContractError>)
    requires
        store.inv(),
    ensures
        query_post(store@, r, msg),
{
    match msg {
        BenchmarkQueryMsg::StateNumLoad {  } => {
            match store.load_scalar() {
                Ok(n) => Ok(QueryAnswer::Num(n)),
                Err(e) => Err(e),
            }
        },
        BenchmarkQueryMsg::StateVectorLoad {  } => {
            match store.load_sequence() {
                Ok(v) => Ok(QueryAnswer::Sequence(v)),
                Err(e) => Err(e),
            }
        },
        BenchmarkQueryMsg::StateVectorLoadSorted {  } => {
            match store.load_sequence_sorted() {
                Ok(v) => Ok(QueryAnswer::Sequence(v)),
                Err(e) => Err(e),
            }
        },
        BenchmarkQueryMsg::MapCompositeKeyLoad { first_key, second_key } => {
            match store.load_composite(first_key, second_key) {
                Ok(x) => Ok(QueryAnswer::CompositeValue(x)),
                Err(e) => Err(e),
            }
        },
        BenchmarkQueryMsg::MapVectorValueLoad { key_to_find } => {
            match store.load_keyed_sequence(key_to_find) {
                Ok(v) => Ok(QueryAnswer::KeyedSequence(v)),
                Err(e) => Err(e),
            }
        },
    }
}

} // verus!
