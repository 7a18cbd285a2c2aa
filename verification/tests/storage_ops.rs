use gas_fees_benchmark::contract::instantiate;
use gas_fees_benchmark::error::ContractError;
use gas_fees_benchmark::msg::InstantiateMsg;
use gas_fees_benchmark::store::Store;

fn fresh_instance() -> Store {
    let mut store = Store::new();
    instantiate(&mut store, InstantiateMsg {});
    store
}

#[test]
fn instantiate_sets_counter_to_one() {
    let store = fresh_instance();
    assert_eq!(store.load_scalar(), Ok(1));
    assert_eq!(store.load_sequence(), Ok(vec![]));
}

#[test]
fn scalar_range_save_ends_at_range_end() {
    let mut store = fresh_instance();
    assert_eq!(store.save_scalar_range(5, 8), Ok(()));
    assert_eq!(store.load_scalar(), Ok(8));
}

#[test]
fn scalar_range_update_matches_save() {
    let mut store = fresh_instance();
    assert_eq!(store.update_scalar_range(2, 9), Ok(()));
    assert_eq!(store.load_scalar(), Ok(9));
}

#[test]
fn scalar_single_point_range() {
    let mut store = fresh_instance();
    assert_eq!(store.save_scalar_range(42, 42), Ok(()));
    assert_eq!(store.load_scalar(), Ok(42));
}

#[test]
fn scalar_empty_range_keeps_counter() {
    let mut store = fresh_instance();
    assert_eq!(store.save_scalar_range(9, 3), Ok(()));
    assert_eq!(store.load_scalar(), Ok(1));
}

#[test]
fn scalar_save_without_state_fails_not_found() {
    let mut store = Store::new();
    assert_eq!(store.save_scalar_range(1, 2), Err(ContractError::NotFound));
    assert_eq!(store.load_scalar(), Err(ContractError::NotFound));
}

#[test]
fn scalar_update_empty_range_skips_state_check() {
    // The update path issues one independent update per step; an empty range
    // issues none at all, so it succeeds even before instantiation, while
    // the save path loads the record first and fails.
    let mut store = Store::new();
    assert_eq!(store.update_scalar_range(5, 1), Ok(()));
    assert_eq!(store.save_scalar_range(5, 1), Err(ContractError::NotFound));
    assert_eq!(store.update_scalar_range(1, 5), Err(ContractError::NotFound));
}

#[test]
fn scalar_range_reaching_the_largest_value() {
    let mut store = fresh_instance();
    assert_eq!(store.save_scalar_range(u64::MAX - 1, u64::MAX), Ok(()));
    assert_eq!(store.load_scalar(), Ok(u64::MAX));
    assert_eq!(store.update_scalar_range(u64::MAX, u64::MAX), Ok(()));
    assert_eq!(store.load_scalar(), Ok(u64::MAX));
}

#[test]
fn composite_point_at_the_largest_value() {
    let mut store = Store::new();
    assert_eq!(store.save_composite(0, 1, u64::MAX, u64::MAX), Ok(()));
    assert_eq!(store.load_composite(0, 1), Ok(u64::MAX as u128));
}

#[test]
fn sequence_range_appends_in_order() {
    let mut store = fresh_instance();
    assert_eq!(store.save_sequence_value_range(3, 6), Ok(()));
    assert_eq!(store.load_sequence(), Ok(vec![3, 4, 5, 6]));
}

#[test]
fn sequence_range_grows_by_range_length() {
    let mut store = fresh_instance();
    assert_eq!(store.save_sequence_value_range(10, 14), Ok(()));
    let first = store.load_sequence().unwrap();
    assert_eq!(first.len(), 5);
    assert_eq!(store.update_sequence_value_range(2, 3), Ok(()));
    let second = store.load_sequence().unwrap();
    assert_eq!(second.len(), first.len() + 2);
    assert_eq!(second, vec![10, 11, 12, 13, 14, 2, 3]);
}

#[test]
fn sequence_preserves_duplicates() {
    let mut store = fresh_instance();
    assert_eq!(store.save_sequence_value_range(7, 7), Ok(()));
    assert_eq!(store.save_sequence_value_range(7, 7), Ok(()));
    assert_eq!(store.load_sequence(), Ok(vec![7, 7]));
}

#[test]
fn sorted_read_is_non_destructive() {
    let mut store = fresh_instance();
    assert_eq!(store.save_sequence_value_range(8, 9), Ok(()));
    assert_eq!(store.save_sequence_value_range(1, 2), Ok(()));
    assert_eq!(store.save_sequence_value_range(5, 5), Ok(()));
    assert_eq!(store.load_sequence_sorted(), Ok(vec![1, 2, 5, 8, 9]));
    // the stored sequence keeps insertion order
    assert_eq!(store.load_sequence(), Ok(vec![8, 9, 1, 2, 5]));
}

#[test]
fn sorted_save_persists_the_sort() {
    let mut store = fresh_instance();
    assert_eq!(store.save_sequence_value_range(8, 9), Ok(()));
    assert_eq!(store.save_sequence_value_range(1, 2), Ok(()));
    assert_eq!(store.save_sequence_sorted(), Ok(()));
    assert_eq!(store.load_sequence(), Ok(vec![1, 2, 8, 9]));
}

#[test]
fn sorted_read_without_state_fails_not_found() {
    let store = Store::new();
    assert_eq!(store.load_sequence_sorted(), Err(ContractError::NotFound));
}

#[test]
fn composite_round_trip() {
    let mut store = Store::new();
    assert_eq!(store.save_composite(1, 1, 7, 7), Ok(()));
    assert_eq!(store.load_composite(1, 1), Ok(7));
    assert_eq!(store.load_composite(1, 2), Err(ContractError::NotFound));
    assert_eq!(store.load_composite(2, 1), Err(ContractError::NotFound));
}

#[test]
fn composite_load_before_any_save_fails_not_found() {
    let store = Store::new();
    assert_eq!(store.load_composite(1, 1), Err(ContractError::NotFound));
}

#[test]
fn composite_range_advances_keys_in_lock_step() {
    let mut store = Store::new();
    // values 10 ..= 12 under keys (3,4), (4,5), (5,6)
    assert_eq!(store.save_composite(3, 4, 10, 12), Ok(()));
    assert_eq!(store.load_composite(3, 4), Ok(10));
    assert_eq!(store.load_composite(4, 5), Ok(11));
    assert_eq!(store.load_composite(5, 6), Ok(12));
    assert_eq!(store.load_composite(3, 5), Err(ContractError::NotFound));
}

#[test]
fn composite_save_overwrites_existing_point() {
    let mut store = Store::new();
    assert_eq!(store.save_composite(9, 9, 1, 1), Ok(()));
    assert_eq!(store.update_composite(9, 9, 2, 2), Ok(()));
    assert_eq!(store.load_composite(9, 9), Ok(2));
}

#[test]
fn keyed_walk_fails_not_found_on_unsaved_key() {
    let mut store = Store::new();
    assert_eq!(
        store.save_keyed_sequence(1, 2, 10, 12),
        Err(ContractError::NotFound)
    );
    assert_eq!(store.load_keyed_sequence(1), Err(ContractError::NotFound));
}

#[test]
fn keyed_walk_appends_one_pair_per_key() {
    let mut store = Store::new();
    store.save_keyed_entry(1, vec![]);
    store.save_keyed_entry(2, vec![]);
    store.save_keyed_entry(3, vec![]);
    // values 10 ..= 12 walk keys 1, 2, 3 with tags 5, 6, 7
    assert_eq!(store.save_keyed_sequence(1, 5, 10, 12), Ok(()));
    assert_eq!(store.load_keyed_sequence(1), Ok(vec![(5, 10)]));
    assert_eq!(store.load_keyed_sequence(2), Ok(vec![(6, 11)]));
    assert_eq!(store.load_keyed_sequence(3), Ok(vec![(7, 12)]));
}

#[test]
fn keyed_walk_keeps_appends_made_before_a_failure() {
    let mut store = Store::new();
    store.save_keyed_entry(1, vec![(0, 0)]);
    // key 2 was never saved: the second step fails, the first append stays
    assert_eq!(
        store.update_keyed_sequence(1, 5, 10, 12),
        Err(ContractError::NotFound)
    );
    assert_eq!(store.load_keyed_sequence(1), Ok(vec![(0, 0), (5, 10)]));
    assert_eq!(store.load_keyed_sequence(2), Err(ContractError::NotFound));
}

#[test]
fn entry_enumerators_report_table_contents() {
    let mut store = Store::new();
    assert_eq!(store.composite_entries(), vec![]);
    assert_eq!(store.keyed_entries(), vec![]);
    store.save_composite(1, 2, 5, 6).unwrap();
    let mut composite = store.composite_entries();
    composite.sort();
    assert_eq!(composite, vec![((1, 2), 5), ((2, 3), 6)]);
    store.save_keyed_entry(8, vec![(1, 2)]);
    assert_eq!(store.keyed_entries(), vec![(8, vec![(1, 2)])]);
}

#[test]
fn keyed_update_walk_matches_save_walk() {
    let mut store = Store::new();
    store.save_keyed_entry(4, vec![]);
    assert_eq!(store.update_keyed_sequence(4, 9, 20, 20), Ok(()));
    assert_eq!(store.load_keyed_sequence(4), Ok(vec![(9, 20)]));
}
