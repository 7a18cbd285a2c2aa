use vstd::prelude::*;
use vstd::string::StringExecFns;

verus! {

/// Fixed amount staked per validator by the registration and lifecycle
/// operations.
pub const STAKE_AMOUNT: u64 = 10;

/// The denomination every staking instruction is expressed in.
pub open spec fn stake_denom() -> Seq<char> {
    "uluna"@
}

/// Builds the fixed staking denomination.
pub fn stake_denom_string() -> (s: String)
    ensures
        s@ == stake_denom(),
{
    String::from_str("uluna")
}

/// An instruction addressed to the host staking/distribution subsystem. The
/// engine only constructs these; their execution is owned by the host and is
/// not observable within the same call.
#[derive(Debug, PartialEq, Eq)]
pub enum StakingInstruction {
    Delegate { validator: String, amount: u128, denom: String },
    Undelegate { validator: String, amount: u128, denom: String },
    WithdrawReward { validator: String },
}

/// Spec: `instr` delegates `amount` of `denom` to the validator named `v`.
pub open spec fn is_delegate(
    instr: StakingInstruction,
    v: Seq<char>,
    amount: u128,
    denom: Seq<char>,
) -> bool {
    match instr {
        StakingInstruction::Delegate { validator, amount: a, denom: d } => validator@ == v && a
            == amount && d@ == denom,
        _ => false,
    }
}

/// Spec: `instr` undelegates `amount` of `denom` from the validator named `v`.
pub open spec fn is_undelegate(
    instr: StakingInstruction,
    v: Seq<char>,
    amount: u128,
    denom: Seq<char>,
) -> bool {
    match instr {
        StakingInstruction::Undelegate { validator, amount: a, denom: d } => validator@ == v && a
            == amount && d@ == denom,
        _ => false,
    }
}

/// Spec: `instr` withdraws the delegator reward from the validator named `v`.
pub open spec fn is_withdraw(instr: StakingInstruction, v: Seq<char>) -> bool {
    match instr {
        StakingInstruction::WithdrawReward { validator } => validator@ == v,
        _ => false,
    }
}

/// Builds a delegate instruction for `validator` over `amount` units of
/// `denom`.
pub fn delegate_instruction(validator: &String, denom: String, amount: u64) -> (r:
    StakingInstruction)
    ensures
        is_delegate(r, validator@, amount as u128, denom@),
{
    StakingInstruction::Delegate { validator: validator.clone(), amount: amount as u128, denom }
}

/// Builds an undelegate instruction for `validator` over `amount` units of
/// `denom`.
pub fn undelegate_instruction(validator: &String, denom: String, amount: u64) -> (r:
    StakingInstruction)
    ensures
        is_undelegate(r, validator@, amount as u128, denom@),
{
    StakingInstruction::Undelegate { validator: validator.clone(), amount: amount as u128, denom }
}

/// Builds a reward-withdrawal instruction for `validator`.
pub fn withdraw_reward_instruction(validator: &String) -> (r: StakingInstruction)
    ensures
        is_withdraw(r, validator@),
{
    StakingInstruction::WithdrawReward { validator: validator.clone() }
}

} // verus!
