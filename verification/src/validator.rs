use vstd::prelude::*;
use vstd::math::min;
use vstd::pervasive::unreached;

use crate::error::ContractError;
use crate::staking::{
    delegate_instruction, is_delegate, is_undelegate, is_withdraw, stake_denom,
    stake_denom_string, undelegate_instruction, withdraw_reward_instruction, StakingInstruction,
    STAKE_AMOUNT,
};
use crate::state::{addr_in, contains_addr, distinct_addrs, lemma_addr_in_concat, StateView};
use crate::store::{Store, StoreView};

verus! {

/// The addresses a registration scan selects: walk `catalog` in order, skip
/// every address already in `taken`, and collect up to `n` fresh ones; each
/// collected address immediately counts as taken, so an address is selected
/// at most once even if the catalog repeats it.
pub open spec fn select_new(catalog: Seq<String>, taken: Seq<String>, n: nat) -> Seq<String>
    decreases catalog.len(),
{
    if n == 0 || catalog.len() == 0 {
        Seq::empty()
    } else if addr_in(taken, catalog[0]@) {
        select_new(catalog.drop_first(), taken, n)
    } else {
        seq![catalog[0]] + select_new(
            catalog.drop_first(),
            taken.push(catalog[0]),
            (n - 1) as nat,
        )
    }
}

/// Registration never introduces a duplicate: extending a duplicate-free
/// roster by the addresses a scan selects leaves it duplicate-free.
pub proof fn lemma_select_preserves_distinct(catalog: Seq<String>, taken: Seq<String>, n: nat)
    requires
        distinct_addrs(taken),
    ensures
        distinct_addrs(taken + select_new(catalog, taken, n)),
    decreases catalog.len(),
{
    if n == 0 || catalog.len() == 0 {
        assert(taken + select_new(catalog, taken, n) =~= taken);
    } else if addr_in(taken, catalog[0]@) {
        lemma_select_preserves_distinct(catalog.drop_first(), taken, n);
    } else {
        let head = catalog[0];
        let taken2 = taken.push(head);
        assert forall|i: int, j: int| 0 <= i < j < taken2.len() implies taken2[i]@
            != taken2[j]@ by {
            if j == taken2.len() - 1 {
                assert(taken2[i] == taken[i]);
                assert(!addr_in(taken, head@));
            }
        }
        lemma_select_preserves_distinct(catalog.drop_first(), taken2, (n - 1) as nat);
        assert(taken + select_new(catalog, taken, n) =~= taken2 + select_new(
            catalog.drop_first(),
            taken2,
            (n - 1) as nat,
        ));
    }
}

/// Outcome of `register_n_validators`: with no state record the call fails
/// with NotFound; with fewer fresh catalog addresses than requested it fails
/// with NotEnoughValidatorsFound and leaves the store untouched; otherwise it
/// appends exactly the selected addresses to the roster, in catalog order,
/// and returns one delegate instruction per new address.
pub open spec fn register_post(
    pre: StoreView,
    post: StoreView,
    r: Result<Vec<StakingInstruction>, ContractError>,
    catalog: Seq<String>,
    n: u64,
) -> bool {
    match pre.state {
        None => r == Err::<Vec<StakingInstruction>, ContractError>(ContractError::NotFound) && post
            == pre,
        Some(st) => {
            let picks = select_new(catalog, st.roster, n as nat);
            if picks.len() < n {
                r == Err::<Vec<StakingInstruction>, ContractError>(
                    ContractError::NotEnoughValidatorsFound,
                ) && post == pre
            } else {
                r matches Ok(msgs) && msgs@.len() == n && (forall|i: int|
                    0 <= i < n ==> is_delegate(
                        msgs@[i],
                        picks[i]@,
                        STAKE_AMOUNT as u128,
                        stake_denom(),
                    )) && post == (StoreView {
                    state: Some(StateView { roster: st.roster + picks, ..st }),
                    ..pre
                })
            }
        },
    }
}

/// Outcome of the bulk lifecycle walks: with no state record the call fails
/// with NotFound; otherwise exactly `min(n, roster length)` instructions come
/// back, one per validator in roster order.
pub open spec fn first_n_post(
    v: StoreView,
    r: Result<Vec<StakingInstruction>, ContractError>,
    n: u64,
    each: spec_fn(StakingInstruction, Seq<char>) -> bool,
) -> bool {
    match v.state {
        None => r == Err::<Vec<StakingInstruction>, ContractError>(ContractError::NotFound),
        Some(st) => r matches Ok(msgs) && msgs@.len() == min(n as int, st.roster.len() as int) && (
        forall|i: int| 0 <= i < msgs@.len() ==> each(msgs@[i], st.roster[i]@)),
    }
}

/// Spec: one delegate instruction with the fixed amount and denomination.
pub open spec fn each_delegate(instr: StakingInstruction, v: Seq<char>) -> bool {
    is_delegate(instr, v, STAKE_AMOUNT as u128, stake_denom())
}

/// Spec: one undelegate instruction with the fixed amount and denomination.
pub open spec fn each_undelegate(instr: StakingInstruction, v: Seq<char>) -> bool {
    is_undelegate(instr, v, STAKE_AMOUNT as u128, stake_denom())
}

/// Outcome of `register_n_validators_strict`: as `register_post`, with two
/// validation checks before any roster write. After the shortfall check, the
/// caller's attached funds must cover the fixed stake for every requested
/// validator (else InsufficientFunds), and every selected address must exist
/// among the chain's validators (else ValidatorDoesNotExist). A failed check
/// leaves the store untouched.
pub open spec fn register_strict_post(
    pre: StoreView,
    post: StoreView,
    r: Result<Vec<StakingInstruction>, ContractError>,
    catalog: Seq<String>,
    n: u64,
    available_funds: u128,
    chain: Seq<String>,
) -> bool {
    match pre.state {
        None => r == Err::<Vec<StakingInstruction>, ContractError>(ContractError::NotFound) && post
            == pre,
        Some(st) => {
            let picks = select_new(catalog, st.roster, n as nat);
            if picks.len() < n {
                r == Err::<Vec<StakingInstruction>, ContractError>(
                    ContractError::NotEnoughValidatorsFound,
                ) && post == pre
            } else if (n as int) * (STAKE_AMOUNT as int) > available_funds {
                r == Err::<Vec<StakingInstruction>, ContractError>(
                    ContractError::InsufficientFunds,
                ) && post == pre
            } else if exists|i: int| 0 <= i < picks.len() && !addr_in(chain, picks[i]@) {
                r == Err::<Vec<StakingInstruction>, ContractError>(
                    ContractError::ValidatorDoesNotExist,
                ) && post == pre
            } else {
                r matches Ok(msgs) && msgs@.len() == n && (forall|i: int|
                    0 <= i < n ==> is_delegate(
                        msgs@[i],
                        picks[i]@,
                        STAKE_AMOUNT as u128,
                        stake_denom(),
                    )) && post == (StoreView {
                    state: Some(StateView { roster: st.roster + picks, ..st }),
                    ..pre
                })
            }
        },
    }
}

/// Scans `catalog` in order and collects up to `n` addresses that stand
/// neither on `roster` nor among the picks already made.
fn select_candidates(catalog: &Vec<String>, roster: &Vec<String>, n: u64) -> (picks: Vec<String>)
    requires
        distinct_addrs(roster@),
    ensures
        picks@ == select_new(catalog@, roster@, n as nat),
        picks@.len() <= n,
        distinct_addrs(roster@ + picks@),
{
        let ghost roster0 = roster@;
        let mut picks: Vec<String> = Vec::new();
        let mut count: u64 = 0;
        let mut i: usize = 0;
        proof {
            assert(roster0 + picks@ =~= roster0);
            assert(catalog@.skip(0) =~= catalog@);
        }
        while i < catalog.len() && count < n
            invariant
                i <= catalog@.len(),
                count == picks@.len(),
                count <= n,
                roster@ == roster0,
                distinct_addrs(roster0 + picks@),
                select_new(catalog@, roster0, n as nat) == picks@ + select_new(
                    catalog@.skip(i as int),
                    roster0 + picks@,
                    (n - count) as nat,
                ),
            decreases catalog@.len() - i,
        {
            let c = &catalog[i];
            let in_roster = contains_addr(&roster, c);
            let in_picks = contains_addr(&picks, c);
            proof {
                lemma_addr_in_concat(roster0, picks@, catalog@[i as int]@);
                assert(catalog@.skip(i as int)[0] == catalog@[i as int]);
                assert(catalog@.skip(i as int).drop_first() =~= catalog@.skip(i as int + 1));
            }
            if !in_roster && !in_picks {
                let ghost picks_prev = picks@;
                let ghost taken_prev = roster0 + picks@;
                let ghost rem = (n - count) as nat;
                picks.push(c.clone());
                count += 1;
                proof {
                    assert(picks@ =~= picks_prev.push(catalog@[i as int]));
                    assert(taken_prev.push(catalog@[i as int]) =~= roster0 + picks@);
                    assert(select_new(catalog@.skip(i as int), taken_prev, rem) == seq![
                        catalog@[i as int],
                    ] + select_new(
                        catalog@.skip(i as int + 1),
                        roster0 + picks@,
                        (n - count) as nat,
                    ));
                    assert(picks_prev + (seq![catalog@[i as int]] + select_new(
                        catalog@.skip(i as int + 1),
                        roster0 + picks@,
                        (n - count) as nat,
                    )) =~= picks@ + select_new(
                        catalog@.skip(i as int + 1),
                        roster0 + picks@,
                        (n - count) as nat,
                    ));
                    assert forall|a: int, b: int|
                        0 <= a < b < (roster0 + picks@).len() implies (roster0 + picks@)[a]@ != (
                    roster0 + picks@)[b]@ by {
                        if b == (roster0 + picks@).len() - 1 {
                            assert((roster0 + picks@)[a] == taken_prev[a]);
                            assert((roster0 + picks@)[b] == catalog@[i as int]);
                            assert(!addr_in(taken_prev, catalog@[i as int]@));
                        } else {
                            assert((roster0 + picks@)[a] == taken_prev[a]);
                            assert((roster0 + picks@)[b] == taken_prev[b]);
                        }
                    }
                }
            } else {
                proof {
                    assert(addr_in(roster0 + picks@, catalog@[i as int]@));
                }
            }
            i += 1;
        }
        proof {
            if count == n {
                assert(select_new(catalog@.skip(i as int), roster0 + picks@, 0nat)
                    =~= Seq::<String>::empty());
            } else {
                assert(catalog@.skip(i as int).len() == 0);
            }
            assert(picks@ + Seq::<String>::empty() =~= picks@);
            assert(select_new(catalog@, roster0, n as nat) == picks@);
        }
        picks
}

impl Store {
    /// Appends each picked address to the roster, one persisted write per
    /// address, and builds the matching delegate instructions.
    fn apply_registration(&mut self, picks: Vec<String>) -> (msgs: Vec<StakingInstruction>)
        requires
            old(self).inv(),
            old(self)@.state is Some,
            distinct_addrs(old(self)@.state->Some_0.roster + picks@),
        ensures
            final(self).inv(),
            final(self)@ == (StoreView {
                state: Some(
                    StateView {
                        roster: old(self)@.state->Some_0.roster + picks@,
                        ..old(self)@.state->Some_0
                    },
                ),
                ..old(self)@
            }),
            msgs@.len() == picks@.len(),
            forall|i: int|
                0 <= i < picks@.len() ==> is_delegate(
                    msgs@[i],
                    picks@[i]@,
                    STAKE_AMOUNT as u128,
                    stake_denom(),
                ),
    {
        let ghost roster0 = old(self)@.state->Some_0.roster;
        let mut msgs: Vec<StakingInstruction> = Vec::new();
        let mut j: usize = 0;
        proof {
            assert(roster0 + picks@.take(0) =~= roster0);
            assert(old(self)@ == (StoreView {
                state: Some(
                    StateView {
                        roster: roster0 + picks@.take(0),
                        ..old(self)@.state->Some_0
                    },
                ),
                ..old(self)@
            }));
        }
        while j < picks.len()
            invariant
                j <= picks@.len(),
                msgs@.len() == j,
                distinct_addrs(roster0 + picks@),
                forall|t: int|
                    0 <= t < j ==> is_delegate(
                        msgs@[t],
                        picks@[t]@,
                        STAKE_AMOUNT as u128,
                        stake_denom(),
                    ),
                self.inv(),
                old(self)@.state is Some,
                roster0 == old(self)@.state->Some_0.roster,
                self@ == (StoreView {
                    state: Some(
                        StateView {
                            roster: roster0 + picks@.take(j as int),
                            ..old(self)@.state->Some_0
                        },
                    ),
                    ..old(self)@
                }),
            decreases picks@.len() - j,
        {
            let ghost jj = j as int;
            proof {
                let partial = roster0 + picks@.take(jj);
                assert forall|t: int| 0 <= t < partial.len() implies partial[t]@
                    != picks@[jj]@ by {
                    let full = roster0 + picks@;
                    assert(partial[t] == full[t]);
                    assert(full[roster0.len() + jj] == picks@[jj]);
                }
            }
            let v = picks[j].clone();
            match self.roster_push(v) {
                Ok(()) => {},
                Err(_) => {
                    // the state record exists, so the push cannot fail
                    return unreached();
                },
            }
            msgs.push(delegate_instruction(&picks[j], stake_denom_string(), STAKE_AMOUNT));
            j += 1;
            proof {
                assert((roster0 + picks@.take(jj)).push(picks@[jj]) =~= roster0 + picks@.take(
                    jj + 1,
                ));
            }
        }
        proof {
            assert(picks@.take(picks@.len() as int) =~= picks@);
        }
        msgs
    }

    /// Scans the external validator catalog in order, selects up to `n`
    /// addresses that are not yet on the roster, registers each of them
    /// (one persisted write per address) and returns one delegate instruction
    /// per newly registered validator. Fails with NotEnoughValidatorsFound,
    /// changing nothing, when fewer than `n` fresh addresses exist.
    pub fn register_n_validators(&mut self, catalog: &Vec<String>, n: u64) -> (r: Result<
        Vec<StakingInstruction>,
        ContractError,
    >)
        requires
            old(self).inv(),
        ensures
            final(self).inv(),
            register_post(old(self)@, final(self)@, r, catalog@, n),
    {
        let roster = match self.load_roster() {
            Ok(v) => v,
            Err(e) => {
                return Err(e);
            },
        };
        let picks = select_candidates(catalog, &roster, n);
        if (picks.len() as u64) < n {
            return Err(ContractError::NotEnoughValidatorsFound);
        }
        let msgs = self.apply_registration(picks);
        Ok(msgs)
    }

    /// Stricter sibling of `register_n_validators`, for calling contexts that
    /// validate before delegating: the caller's attached funds must cover the
    /// fixed stake for every requested validator, and every selected address
    /// must exist among the chain's validators. All checks run before any
    /// roster write, in the order `register_strict_post` states.
    pub fn register_n_validators_strict(
        &mut self,
        catalog: &Vec<String>,
        n: u64,
        available_funds: u128,
        chain_validators: &Vec<String>,
    ) -> (r: Result<Vec<StakingInstruction>, ContractError>)
        requires
            old(self).inv(),
        ensures
            final(self).inv(),
            register_strict_post(
                old(self)@,
                final(self)@,
                r,
                catalog@,
                n,
                available_funds,
                chain_validators@,
            ),
    {
        let roster = match self.load_roster() {
            Ok(v) => v,
            Err(e) => {
                return Err(e);
            },
        };
        let picks = select_candidates(catalog, &roster, n);
        if (picks.len() as u64) < n {
            return Err(ContractError::NotEnoughValidatorsFound);
        }
        let needed: u128 = (n as u128) * (STAKE_AMOUNT as u128);
        if needed > available_funds {
            return Err(ContractError::InsufficientFunds);
        }
        let mut j: usize = 0;
        while j < picks.len()
            invariant
                j <= picks@.len(),
                forall|t: int| 0 <= t < j ==> addr_in(chain_validators@, picks@[t]@),
                self.inv(),
                self@ == old(self)@,
                old(self)@.state is Some,
                roster@ == old(self)@.state->Some_0.roster,
                picks@ == select_new(catalog@, roster@, n as nat),
                picks@.len() == n,
                distinct_addrs(roster@ + picks@),
                (n as int) * (STAKE_AMOUNT as int) <= available_funds,
            decreases picks@.len() - j,
        {
            if !contains_addr(chain_validators, &picks[j]) {
                proof {
                    assert(!addr_in(chain_validators@, picks@[j as int]@));
                    assert(exists|i: int|
                        0 <= i < picks@.len() && !addr_in(chain_validators@, picks@[i]@));
                }
                return Err(ContractError::ValidatorDoesNotExist);
            }
            j += 1;
        }
        let msgs = self.apply_registration(picks);
        Ok(msgs)
    }

    /// Walks the roster in registration order and emits one delegate
    /// instruction per validator, stopping after `number_of_validators` or at
    /// the end of the roster, whichever comes first.
    pub fn delegate_first_n(&self, number_of_validators: u64) -> (r: Result<
        Vec<StakingInstruction>,
        ContractError,
    >)
        ensures
            first_n_post(self@, r, number_of_validators, |instr, v| each_delegate(instr, v)),
    {
        let roster = match self.load_roster() {
            Ok(v) => v,
            Err(e) => {
                return Err(e);
            },
        };
        let mut msgs: Vec<StakingInstruction> = Vec::new();
        let mut count: u64 = 0;
        let mut j: usize = 0;
        while j < roster.len() && count < number_of_validators
            invariant
                j <= roster@.len(),
                count as int == j as int,
                count <= number_of_validators,
                msgs@.len() == j,
                forall|t: int| 0 <= t < j ==> each_delegate(msgs@[t], roster@[t]@),
            decreases roster@.len() - j,
        {
            msgs.push(delegate_instruction(&roster[j], stake_denom_string(), STAKE_AMOUNT));
            j += 1;
            count += 1;
        }
        Ok(msgs)
    }

    /// Walks the roster in registration order and emits one undelegate
    /// instruction per validator, stopping after `number_of_validators` or at
    /// the end of the roster, whichever comes first.
    pub fn undelegate_first_n(&self, number_of_validators: u64) -> (r: Result<
        Vec<StakingInstruction>,
        ContractError,
    >)
        ensures
            first_n_post(self@, r, number_of_validators, |instr, v| each_undelegate(instr, v)),
    {
        let roster = match self.load_roster() {
            Ok(v) => v,
            Err(e) => {
                return Err(e);
            },
        };
        let mut msgs: Vec<StakingInstruction> = Vec::new();
        let mut count: u64 = 0;
        let mut j: usize = 0;
        while j < roster.len() && count < number_of_validators
            invariant
                j <= roster@.len(),
                count as int == j as int,
                count <= number_of_validators,
                msgs@.len() == j,
                forall|t: int| 0 <= t < j ==> each_undelegate(msgs@[t], roster@[t]@),
            decreases roster@.len() - j,
        {
            msgs.push(undelegate_instruction(&roster[j], stake_denom_string(), STAKE_AMOUNT));
            j += 1;
            count += 1;
        }
        Ok(msgs)
    }

    /// Walks the roster in registration order and emits one reward-withdrawal
    /// instruction per validator, stopping after `number_of_validators` or at
    /// the end of the roster, whichever comes first.
    pub fn withdraw_rewards_first_n(&self, number_of_validators: u64) -> (r: Result<
        Vec<StakingInstruction>,
        ContractError,
    >)
        ensures
            first_n_post(self@, r, number_of_validators, |instr, v| is_withdraw(instr, v)),
    {
        let roster = match self.load_roster() {
            Ok(v) => v,
            Err(e) => {
                return Err(e);
            },
        };
        let mut msgs: Vec<StakingInstruction> = Vec::new();
        let mut count: u64 = 0;
        let mut j: usize = 0;
        while j < roster.len() && count < number_of_validators
            invariant
                j <= roster@.len(),
                count as int == j as int,
                count <= number_of_validators,
                msgs@.len() == j,
                forall|t: int| 0 <= t < j ==> is_withdraw(msgs@[t], roster@[t]@),
            decreases roster@.len() - j,
        {
            msgs.push(withdraw_reward_instruction(&roster[j]));
            j += 1;
            count += 1;
        }
        Ok(msgs)
    }
}

} // verus!
