use gas_fees_benchmark::contract::instantiate;
use gas_fees_benchmark::error::ContractError;
use gas_fees_benchmark::msg::InstantiateMsg;
use gas_fees_benchmark::staking::StakingInstruction;
use gas_fees_benchmark::store::Store;

fn fresh_instance() -> Store {
    let mut store = Store::new();
    instantiate(&mut store, InstantiateMsg {});
    store
}

fn catalog_of(names: &[&str]) -> Vec<String> {
    names.iter().map(|n| n.to_string()).collect()
}

fn delegate_target(instr: &StakingInstruction) -> String {
    match instr {
        StakingInstruction::Delegate {
            validator,
            amount,
            denom,
        } => {
            assert_eq!(*amount, 10u128);
            assert_eq!(denom, "uluna");
            validator.clone()
        }
        other => panic!("expected a delegate instruction, got {:?}", other),
    }
}

#[test]
fn register_three_of_five_emits_three_delegations() {
    let mut store = fresh_instance();
    let catalog = catalog_of(&["val-a", "val-b", "val-c", "val-d", "val-e"]);
    let msgs = store.register_n_validators(&catalog, 3).unwrap();
    assert_eq!(msgs.len(), 3);
    let targets: Vec<String> = msgs.iter().map(delegate_target).collect();
    assert_eq!(targets, vec!["val-a", "val-b", "val-c"]);
    // the roster now holds exactly those three, in catalog order
    let walk = store.delegate_first_n(10).unwrap();
    let roster: Vec<String> = walk.iter().map(delegate_target).collect();
    assert_eq!(roster, vec!["val-a", "val-b", "val-c"]);
}

#[test]
fn register_skips_addresses_already_on_the_roster() {
    let mut store = fresh_instance();
    let catalog = catalog_of(&["val-a", "val-b", "val-c", "val-d"]);
    store.register_n_validators(&catalog, 2).unwrap();
    let msgs = store.register_n_validators(&catalog, 2).unwrap();
    let targets: Vec<String> = msgs.iter().map(delegate_target).collect();
    assert_eq!(targets, vec!["val-c", "val-d"]);
    let walk = store.delegate_first_n(10).unwrap();
    let roster: Vec<String> = walk.iter().map(delegate_target).collect();
    assert_eq!(roster, vec!["val-a", "val-b", "val-c", "val-d"]);
}

#[test]
fn roster_never_holds_a_duplicate_address() {
    let mut store = fresh_instance();
    // even a catalog that repeats an address registers it only once
    let catalog = catalog_of(&["val-a", "val-a", "val-b"]);
    let msgs = store.register_n_validators(&catalog, 2).unwrap();
    let targets: Vec<String> = msgs.iter().map(delegate_target).collect();
    assert_eq!(targets, vec!["val-a", "val-b"]);
    let walk = store.delegate_first_n(10).unwrap();
    let roster: Vec<String> = walk.iter().map(delegate_target).collect();
    assert_eq!(roster, vec!["val-a", "val-b"]);
}

#[test]
fn register_shortfall_fails_and_changes_nothing() {
    let mut store = fresh_instance();
    let catalog = catalog_of(&["val-a", "val-b"]);
    assert_eq!(
        store.register_n_validators(&catalog, 3),
        Err(ContractError::NotEnoughValidatorsFound)
    );
    // no partial registration happened
    assert_eq!(store.delegate_first_n(10), Ok(vec![]));
}

#[test]
fn register_shortfall_counts_only_fresh_addresses() {
    let mut store = fresh_instance();
    let catalog = catalog_of(&["val-a", "val-b", "val-c"]);
    store.register_n_validators(&catalog, 3).unwrap();
    // every catalog address is registered already, so even one more is too many
    assert_eq!(
        store.register_n_validators(&catalog, 1),
        Err(ContractError::NotEnoughValidatorsFound)
    );
}

#[test]
fn register_zero_validators_succeeds_with_no_instructions() {
    let mut store = fresh_instance();
    let catalog = catalog_of(&["val-a"]);
    assert_eq!(store.register_n_validators(&catalog, 0), Ok(vec![]));
    assert_eq!(store.delegate_first_n(10), Ok(vec![]));
}

#[test]
fn register_without_state_fails_not_found() {
    let mut store = Store::new();
    let catalog = catalog_of(&["val-a"]);
    assert_eq!(
        store.register_n_validators(&catalog, 1),
        Err(ContractError::NotFound)
    );
}

#[test]
fn strict_register_succeeds_with_funds_and_known_validators() {
    let mut store = fresh_instance();
    let catalog = catalog_of(&["val-a", "val-b", "val-c"]);
    let chain = catalog_of(&["val-c", "val-b", "val-a", "val-z"]);
    let msgs = store
        .register_n_validators_strict(&catalog, 3, 30, &chain)
        .unwrap();
    assert_eq!(msgs.len(), 3);
    assert_eq!(
        store.load_roster(),
        Ok(vec![
            "val-a".to_string(),
            "val-b".to_string(),
            "val-c".to_string()
        ])
    );
}

#[test]
fn strict_register_fails_on_insufficient_funds() {
    let mut store = fresh_instance();
    let catalog = catalog_of(&["val-a", "val-b", "val-c"]);
    let chain = catalog.clone();
    assert_eq!(
        store.register_n_validators_strict(&catalog, 3, 29, &chain),
        Err(ContractError::InsufficientFunds)
    );
    assert_eq!(store.load_roster(), Ok(vec![]));
}

#[test]
fn strict_register_fails_on_a_validator_unknown_to_the_chain() {
    let mut store = fresh_instance();
    let catalog = catalog_of(&["val-a", "val-b"]);
    let chain = catalog_of(&["val-a"]);
    assert_eq!(
        store.register_n_validators_strict(&catalog, 2, 100, &chain),
        Err(ContractError::ValidatorDoesNotExist)
    );
    assert_eq!(store.load_roster(), Ok(vec![]));
}

#[test]
fn strict_register_reports_shortfall_before_funds() {
    let mut store = fresh_instance();
    let catalog = catalog_of(&["val-a"]);
    let chain = catalog.clone();
    assert_eq!(
        store.register_n_validators_strict(&catalog, 2, 0, &chain),
        Err(ContractError::NotEnoughValidatorsFound)
    );
}

#[test]
fn delegate_first_n_emits_min_of_n_and_roster_size() {
    let mut store = fresh_instance();
    let catalog = catalog_of(&["val-a", "val-b", "val-c"]);
    store.register_n_validators(&catalog, 3).unwrap();
    assert_eq!(store.delegate_first_n(2).unwrap().len(), 2);
    assert_eq!(store.delegate_first_n(3).unwrap().len(), 3);
    // asking for more than the roster holds is not an error
    assert_eq!(store.delegate_first_n(10).unwrap().len(), 3);
    assert_eq!(store.delegate_first_n(0).unwrap().len(), 0);
}

#[test]
fn delegate_first_n_walks_in_roster_order() {
    let mut store = fresh_instance();
    let catalog = catalog_of(&["val-a", "val-b", "val-c"]);
    store.register_n_validators(&catalog, 3).unwrap();
    let msgs = store.delegate_first_n(2).unwrap();
    let targets: Vec<String> = msgs.iter().map(delegate_target).collect();
    assert_eq!(targets, vec!["val-a", "val-b"]);
}

#[test]
fn undelegate_first_n_mirrors_the_delegate_walk() {
    let mut store = fresh_instance();
    let catalog = catalog_of(&["val-a", "val-b"]);
    store.register_n_validators(&catalog, 2).unwrap();
    let msgs = store.undelegate_first_n(5).unwrap();
    assert_eq!(msgs.len(), 2);
    match &msgs[0] {
        StakingInstruction::Undelegate {
            validator,
            amount,
            denom,
        } => {
            assert_eq!(validator, "val-a");
            assert_eq!(*amount, 10u128);
            assert_eq!(denom, "uluna");
        }
        other => panic!("expected an undelegate instruction, got {:?}", other),
    }
}

#[test]
fn withdraw_rewards_first_n_names_each_validator() {
    let mut store = fresh_instance();
    let catalog = catalog_of(&["val-a", "val-b", "val-c"]);
    store.register_n_validators(&catalog, 3).unwrap();
    let msgs = store.withdraw_rewards_first_n(2).unwrap();
    assert_eq!(msgs.len(), 2);
    match &msgs[1] {
        StakingInstruction::WithdrawReward { validator } => assert_eq!(validator, "val-b"),
        other => panic!("expected a withdrawal instruction, got {:?}", other),
    }
}

#[test]
fn load_roster_reports_registration_order() {
    let mut store = fresh_instance();
    assert_eq!(store.load_roster(), Ok(vec![]));
    let catalog = catalog_of(&["val-b", "val-a", "val-c"]);
    store.register_n_validators(&catalog, 2).unwrap();
    assert_eq!(
        store.load_roster(),
        Ok(vec!["val-b".to_string(), "val-a".to_string()])
    );
}

#[test]
fn lifecycle_walks_without_state_fail_not_found() {
    let store = Store::new();
    assert_eq!(store.delegate_first_n(1), Err(ContractError::NotFound));
    assert_eq!(store.undelegate_first_n(1), Err(ContractError::NotFound));
    assert_eq!(store.withdraw_rewards_first_n(1), Err(ContractError::NotFound));
}
