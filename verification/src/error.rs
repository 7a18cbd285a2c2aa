use vstd::prelude::*;

verus! {

/// Errors surfaced by the contract's operations. Every error is terminal for
/// the current request: the engine performs no retry and surfaces the first
/// failure encountered.
#[derive(Clone, Copy, Debug, PartialEq, Eq, Structural)]
pub enum ContractError {
    /// A load against a key that was never saved.
    NotFound,
    /// The caller is not allowed to perform the operation.
    Unauthorized,
    /// Staking funds are insufficient for the requested delegation.
    InsufficientFunds,
    /// The validator does not exist on the chain.
    ValidatorDoesNotExist,
    /// Fewer unregistered validators are available than were requested.
    NotEnoughValidatorsFound,
}

} // verus!
