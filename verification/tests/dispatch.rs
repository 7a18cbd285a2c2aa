use gas_fees_benchmark::contract::{execute, instantiate, query};
use gas_fees_benchmark::error::ContractError;
use gas_fees_benchmark::msg::{BenchmarkExecuteMsg, BenchmarkQueryMsg, InstantiateMsg, QueryAnswer};
use gas_fees_benchmark::store::Store;

fn fresh_instance() -> Store {
    let mut store = Store::new();
    instantiate(&mut store, InstantiateMsg {});
    store
}

#[test]
fn execute_scalar_save_then_query_returns_range_end() {
    let mut store = fresh_instance();
    let catalog: Vec<String> = vec![];
    let r = execute(
        &mut store,
        &catalog,
        BenchmarkExecuteMsg::StateNumSave {
            num_to_save_start: 5,
            num_to_save_end: 8,
        },
    );
    assert_eq!(r, Ok(vec![]));
    assert_eq!(
        query(&store, BenchmarkQueryMsg::StateNumLoad {}),
        Ok(QueryAnswer::Num(8))
    );
}

#[test]
fn execute_vector_update_then_query_sorted() {
    let mut store = fresh_instance();
    let catalog: Vec<String> = vec![];
    execute(
        &mut store,
        &catalog,
        BenchmarkExecuteMsg::StateVectorUpdate {
            num_to_update_start: 4,
            num_to_update_end: 6,
        },
    )
    .unwrap();
    execute(
        &mut store,
        &catalog,
        BenchmarkExecuteMsg::StateVectorSave {
            num_to_save_start: 1,
            num_to_save_end: 2,
        },
    )
    .unwrap();
    assert_eq!(
        query(&store, BenchmarkQueryMsg::StateVectorLoad {}),
        Ok(QueryAnswer::Sequence(vec![4, 5, 6, 1, 2]))
    );
    assert_eq!(
        query(&store, BenchmarkQueryMsg::StateVectorLoadSorted {}),
        Ok(QueryAnswer::Sequence(vec![1, 2, 4, 5, 6]))
    );
    // the sorted query did not disturb the stored order
    assert_eq!(
        query(&store, BenchmarkQueryMsg::StateVectorLoad {}),
        Ok(QueryAnswer::Sequence(vec![4, 5, 6, 1, 2]))
    );
}

#[test]
fn execute_composite_save_then_query_round_trip() {
    let mut store = fresh_instance();
    let catalog: Vec<String> = vec![];
    execute(
        &mut store,
        &catalog,
        BenchmarkExecuteMsg::MapCompositeKeySave {
            first_key_start: 1,
            second_key_start: 1,
            value_start: 7,
            first_key_end: 1,
            second_key_end: 1,
            value_end: 7,
        },
    )
    .unwrap();
    assert_eq!(
        query(
            &store,
            BenchmarkQueryMsg::MapCompositeKeyLoad {
                first_key: 1,
                second_key: 1
            }
        ),
        Ok(QueryAnswer::CompositeValue(7))
    );
    assert_eq!(
        query(
            &store,
            BenchmarkQueryMsg::MapCompositeKeyLoad {
                first_key: 2,
                second_key: 2
            }
        ),
        Err(ContractError::NotFound)
    );
}

#[test]
fn query_composite_before_any_save_fails_not_found() {
    let store = fresh_instance();
    assert_eq!(
        query(
            &store,
            BenchmarkQueryMsg::MapCompositeKeyLoad {
                first_key: 1,
                second_key: 1
            }
        ),
        Err(ContractError::NotFound)
    );
}

#[test]
fn execute_keyed_walk_over_seeded_keys() {
    let mut store = fresh_instance();
    store.save_keyed_entry(1, vec![]);
    store.save_keyed_entry(2, vec![]);
    let catalog: Vec<String> = vec![];
    execute(
        &mut store,
        &catalog,
        BenchmarkExecuteMsg::MapVectorValueSave {
            first_key_start: 1,
            second_key_start: 8,
            value_start: 30,
            first_key_end: 2,
            second_key_end: 9,
            value_end: 31,
        },
    )
    .unwrap();
    assert_eq!(
        query(&store, BenchmarkQueryMsg::MapVectorValueLoad { key_to_find: 2 }),
        Ok(QueryAnswer::KeyedSequence(vec![(9, 31)]))
    );
    assert_eq!(
        query(&store, BenchmarkQueryMsg::MapVectorValueLoad { key_to_find: 3 }),
        Err(ContractError::NotFound)
    );
}

#[test]
fn execute_exec_loads_probe_the_state_record() {
    let mut store = Store::new();
    let catalog: Vec<String> = vec![];
    assert_eq!(
        execute(&mut store, &catalog, BenchmarkExecuteMsg::StateExecNumsLoad {}),
        Err(ContractError::NotFound)
    );
    instantiate(&mut store, InstantiateMsg {});
    assert_eq!(
        execute(&mut store, &catalog, BenchmarkExecuteMsg::StateExecNumsLoad {}),
        Ok(vec![])
    );
    assert_eq!(
        execute(&mut store, &catalog, BenchmarkExecuteMsg::StateExecVectorsLoad {}),
        Ok(vec![])
    );
    assert_eq!(
        execute(
            &mut store,
            &catalog,
            BenchmarkExecuteMsg::StateExecVectorsLoadSorted {}
        ),
        Ok(vec![])
    );
}

#[test]
fn execute_add_stake_validators_registers_and_delegates() {
    let mut store = fresh_instance();
    let catalog: Vec<String> = vec![
        "val-a".to_string(),
        "val-b".to_string(),
        "val-c".to_string(),
        "val-d".to_string(),
        "val-e".to_string(),
    ];
    let msgs = execute(
        &mut store,
        &catalog,
        BenchmarkExecuteMsg::AddStakeValidators {
            number_of_validators: 3,
        },
    )
    .unwrap();
    assert_eq!(msgs.len(), 3);
    let walk = execute(
        &mut store,
        &catalog,
        BenchmarkExecuteMsg::DelegateNValidators {
            number_of_validators: 10,
        },
    )
    .unwrap();
    assert_eq!(walk.len(), 3);
    let undelegated = execute(
        &mut store,
        &catalog,
        BenchmarkExecuteMsg::UnDelegateNValidators {
            number_of_validators: 2,
        },
    )
    .unwrap();
    assert_eq!(undelegated.len(), 2);
    let withdrawals = execute(
        &mut store,
        &catalog,
        BenchmarkExecuteMsg::WithdrawNValidatorRewards {
            number_of_validators: 9,
        },
    )
    .unwrap();
    assert_eq!(withdrawals.len(), 3);
}
