use std::collections::BTreeSet;

use tx_observer::attributes::{attribute_set, intersection};
use tx_observer::batch::BatchedTransaction;

fn set_of(ids: &[i64]) -> BTreeSet<i64> {
    ids.iter().cloned().collect()
}

fn contents(batch: &BatchedTransaction) -> Vec<(i64, Vec<i64>)> {
    batch.get().iter().map(|(tx, changes)| (*tx, changes.iter().cloned().collect())).collect()
}

#[test]
fn intersection_holds_what_both_sets_hold() {
    assert_eq!(intersection(&set_of(&[100, 400, 700]), &set_of(&[100, 200, 300])), set_of(&[100]));
    assert_eq!(intersection(&set_of(&[200, 300]), &set_of(&[100, 200, 300])), set_of(&[200, 300]));
    assert_eq!(intersection(&set_of(&[600]), &set_of(&[100, 200, 300])), set_of(&[]));
    assert_eq!(intersection(&set_of(&[]), &set_of(&[1])), set_of(&[]));
    assert_eq!(intersection(&set_of(&[1]), &set_of(&[])), set_of(&[]));
    assert_eq!(intersection(&set_of(&[i64::MIN, 0, i64::MAX]), &set_of(&[i64::MAX, i64::MIN])), set_of(&[i64::MIN, i64::MAX]));
}

#[test]
fn attribute_set_drops_repeats_and_order() {
    assert_eq!(attribute_set(&[300, 100, 300, 200, 100]), set_of(&[100, 200, 300]));
    assert_eq!(attribute_set(&[]), set_of(&[]));
    assert_eq!(attribute_set(&[-1]), set_of(&[-1]));
}

#[test]
fn new_batch_is_empty() {
    let batch = BatchedTransaction::new();
    assert!(batch.is_empty());
    assert!(batch.tx_ids().is_empty());
    assert!(BatchedTransaction::default().is_empty());
}

#[test]
fn transactions_are_kept_in_ascending_order() {
    let mut batch = BatchedTransaction::default();
    batch.add_transact(12, set_of(&[600]));
    batch.add_transact(10, set_of(&[700, 100, 400]));
    batch.add_transact(11, set_of(&[300, 200]));
    assert!(!batch.is_empty());
    assert_eq!(batch.tx_ids(), vec![10, 11, 12]);
    assert_eq!(
        contents(&batch),
        vec![(10, vec![100, 400, 700]), (11, vec![200, 300]), (12, vec![600])]
    );
}

#[test]
fn adding_a_transaction_again_replaces_its_changes() {
    let mut batch = BatchedTransaction::default();
    batch.add_transact(10, set_of(&[1, 2]));
    batch.add_transact(10, set_of(&[3]));
    assert_eq!(contents(&batch), vec![(10, vec![3])]);
}

#[test]
fn applicable_part_keeps_touched_transactions_only() {
    let mut batch = BatchedTransaction::default();
    batch.add_transact(10, set_of(&[100, 400, 700]));
    batch.add_transact(11, set_of(&[200, 300]));
    batch.add_transact(12, set_of(&[600]));
    let part = batch.applicable_to(&set_of(&[100, 200, 300]));
    assert_eq!(contents(&part), vec![(10, vec![100]), (11, vec![200, 300])]);
    assert_eq!(part.tx_ids(), vec![10, 11]);
    assert!(batch.applicable_to(&set_of(&[])).is_empty());
    assert!(batch.applicable_to(&set_of(&[101, 201])).is_empty());
    assert_eq!(contents(&batch).len(), 3);
}

#[test]
fn applicable_part_drops_transactions_without_changes() {
    let mut batch = BatchedTransaction::default();
    batch.add_transact(1, set_of(&[]));
    batch.add_transact(2, set_of(&[5]));
    assert_eq!(contents(&batch.applicable_to(&set_of(&[5]))), vec![(2, vec![5])]);
    assert!(batch.applicable_to(&set_of(&[])).is_empty());
}
