use vstd::prelude::*;

verus! {

/// Payload of the instantiation request; the operation takes no parameters.
#[derive(Clone, Copy, Debug, PartialEq, Eq, Structural)]
pub struct InstantiateMsg {}

/// Inbound execute requests: one variant per mutating storage access pattern
/// or validator-lifecycle operation.
#[derive(Clone, Copy, Debug, PartialEq, Eq, Structural)]
pub enum BenchmarkExecuteMsg {
    StateNumSave { num_to_save_start: u64, num_to_save_end: u64 },
    StateVectorSave { num_to_save_start: u64, num_to_save_end: u64 },
    StateNumUpdate { num_to_update_start: u64, num_to_update_end: u64 },
    StateVectorUpdate { num_to_update_start: u64, num_to_update_end: u64 },
    MapCompositeKeySave {
        first_key_start: u64,
        second_key_start: u64,
        value_start: u64,
        first_key_end: u64,
        second_key_end: u64,
        value_end: u64,
    },
    MapCompositeKeyUpdate {
        first_key_start: u64,
        second_key_start: u64,
        value_start: u64,
        first_key_end: u64,
        second_key_end: u64,
        value_end: u64,
    },
    MapVectorValueSave {
        first_key_start: u64,
        second_key_start: u64,
        value_start: u64,
        first_key_end: u64,
        second_key_end: u64,
        value_end: u64,
    },
    MapVectorValueUpdate {
        first_key_start: u64,
        second_key_start: u64,
        value_start: u64,
        first_key_end: u64,
        second_key_end: u64,
        value_end: u64,
    },
    StateExecNumsLoad {},
    StateExecVectorsLoad {},
    StateExecVectorsLoadSorted {},
    AddStakeValidators { number_of_validators: u64 },
    DelegateNValidators { number_of_validators: u64 },
    UnDelegateNValidators { number_of_validators: u64 },
    WithdrawNValidatorRewards { number_of_validators: u64 },
}

/// Inbound query requests: pure reads over the store.
#[derive(Clone, Copy, Debug, PartialEq, Eq, Structural)]
pub enum BenchmarkQueryMsg {
    StateNumLoad {},
    StateVectorLoad {},
    StateVectorLoadSorted {},
    MapCompositeKeyLoad { first_key: u64, second_key: u64 },
    MapVectorValueLoad { key_to_find: u64 },
}

/// A query result value, handed back to the dispatch layer for encoding.
#[derive(Debug, PartialEq, Eq)]
pub enum QueryAnswer {
    Num(u64),
    Sequence(Vec<u64>),
    CompositeValue(u128),
    KeyedSequence(Vec<(u64, u128)>),
}

} // verus!
