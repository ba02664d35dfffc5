use std::collections::BTreeSet;

use thorkv::transaction::table::TransactionTable;
use thorkv::types::CheckpointPhase;

#[test]
fn ids_start_at_one_and_have_no_gaps() {
    let mut table = TransactionTable::new();
    assert_eq!(table.next_xid(), 1);
    for expected in 1..=100u64 {
        assert_eq!(table.begin(), expected);
        if expected % 3 == 0 {
            table.end(&(expected - 1));
        }
    }
    assert_eq!(table.next_xid(), 101);
}

#[test]
fn next_xid_issues_nothing() {
    let mut table = TransactionTable::new();
    assert_eq!(table.next_xid(), 1);
    assert_eq!(table.next_xid(), 1);
    assert_eq!(table.oldest_xid(), None);
    assert_eq!(table.begin(), 1);
    assert_eq!(table.next_xid(), 2);
}

#[test]
fn oldest_is_the_least_active_id() {
    let mut table = TransactionTable::new();
    assert_eq!(table.oldest_xid(), None);
    let a = table.begin();
    let b = table.begin();
    let c = table.begin();
    assert_eq!(table.oldest_xid(), Some(a));
    table.end(&b);
    assert_eq!(table.oldest_xid(), Some(a));
    table.end(&a);
    assert_eq!(table.oldest_xid(), Some(c));
    table.end(&c);
    assert_eq!(table.oldest_xid(), None);
}

#[test]
fn ending_an_unknown_id_changes_nothing() {
    let mut table = TransactionTable::new();
    table.end(&1);
    table.end(&77);
    assert_eq!(table.oldest_xid(), None);
    assert_eq!(table.begin(), 1);
    table.end(&2);
    table.end(&0);
    assert_eq!(table.oldest_xid(), Some(1));
    table.end(&1);
    table.end(&1);
    assert_eq!(table.oldest_xid(), None);
    assert_eq!(table.begin(), 2);
    assert_eq!(table.oldest_xid(), Some(2));
}

#[test]
fn oldest_agrees_with_a_reference_model() {
    let mut table = TransactionTable::new();
    let mut model: BTreeSet<u64> = BTreeSet::new();
    let mut issued: Vec<u64> = Vec::new();
    let mut state: u64 = 0x9e37_79b9_7f4a_7c15;
    for _ in 0..2000 {
        state ^= state << 13;
        state ^= state >> 7;
        state ^= state << 17;
        if state % 3 != 0 {
            let xid = table.begin();
            assert_eq!(xid, issued.len() as u64 + 1);
            issued.push(xid);
            model.insert(xid);
        } else {
            let xid = (state >> 8) % (issued.len() as u64 + 3);
            table.end(&xid);
            model.remove(&xid);
        }
        assert_eq!(table.oldest_xid(), model.iter().next().copied());
    }
    for xid in issued {
        table.end(&xid);
    }
    assert_eq!(table.oldest_xid(), None);
}

#[test]
fn table_moves_through_the_phases() {
    let mut table = TransactionTable::new();
    assert_eq!(table.phase(), CheckpointPhase::REST);
    assert_eq!(table.move_to_next_phase(), 1);
    assert_eq!(table.phase(), CheckpointPhase::PREPARE);
    assert_eq!(table.begin(), 1);
    assert_eq!(table.move_to_next_phase(), 2);
    assert_eq!(table.phase(), CheckpointPhase::RESOLVE);
    assert_eq!(table.move_to_next_phase(), 2);
    assert_eq!(table.move_to_next_phase(), 2);
    assert_eq!(table.move_to_next_phase(), 2);
    assert_eq!(table.phase(), CheckpointPhase::REST);
    assert_eq!(table.oldest_xid(), Some(1));
}
