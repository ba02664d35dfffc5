use std::collections::BTreeMap;

use thorkv::checkpoint::io::{CheckpointWriter, BATCH_SIZE};
use thorkv::checkpoint::{
    run_checkpointer, wait_oldest_xid_gte, CheckpointStep, Checkpointer, BUSY_WAIT_INTERVAL_MILLIS,
};
use thorkv::db::DB;
use thorkv::log::io::LogReader;
use thorkv::log::logentry::LogEntry;
use thorkv::log::serde::{deserialize_u8_vec, Cursor};
use thorkv::storage::lfmap::LFMapStorage;
use thorkv::storage::KeyValueStorage;
use thorkv::transaction::table::TransactionTable;
use thorkv::types::{CheckpointPhase, Error, ErrorKind};

fn pairs_of(snapshot: &[u8]) -> Vec<(Vec<u8>, Vec<u8>)> {
    let mut rdr = Cursor::new(snapshot);
    let mut pairs = Vec::new();
    while rdr.offset() < snapshot.len() {
        let key = deserialize_u8_vec(&mut rdr).unwrap();
        let value = deserialize_u8_vec(&mut rdr).unwrap();
        pairs.push((key, value));
    }
    pairs
}

fn map_of(snapshot: &[u8]) -> BTreeMap<Vec<u8>, Vec<u8>> {
    let pairs = pairs_of(snapshot);
    let count = pairs.len();
    let map: BTreeMap<Vec<u8>, Vec<u8>> = pairs.into_iter().collect();
    assert_eq!(map.len(), count);
    map
}

fn entries_of(log: Vec<u8>) -> Vec<LogEntry> {
    let mut reader = LogReader::new(log);
    let mut entries = Vec::new();
    while let Some(entry) = reader.read().unwrap() {
        entries.push(entry);
    }
    entries
}

#[test]
fn writer_appends_key_then_value() {
    let mut writer = CheckpointWriter::new();
    writer.append(b"k", b"vw");
    writer.append(b"", b"");
    let mut expected = vec![0, 0, 0, 0, 0, 0, 0, 1, b'k', 0, 0, 0, 0, 0, 0, 0, 2, b'v', b'w'];
    expected.extend_from_slice(&[0; 16]);
    assert_eq!(writer.bytes(), &expected[..]);
    assert_eq!(writer.synced_len(), 0);
    writer.flush();
    assert_eq!(writer.synced_len(), expected.len());
    assert_eq!(writer.into_bytes(), expected);
}

#[test]
fn writer_syncs_each_full_batch() {
    let mut writer = CheckpointWriter::with_batch_size(3);
    let record = 8 + 1 + 8 + 1;
    for i in 0..10usize {
        writer.append(&[i as u8], &[0]);
        assert_eq!(writer.bytes().len(), (i + 1) * record);
        assert_eq!(writer.synced_len(), (i + 1) / 3 * 3 * record);
    }
    writer.flush();
    assert_eq!(writer.synced_len(), 10 * record);
    writer.append(&[10], &[0]);
    writer.append(&[11], &[0]);
    assert_eq!(writer.synced_len(), 12 * record);
}

#[test]
fn writer_with_default_batch_syncs_after_512_records() {
    assert_eq!(BATCH_SIZE, 512);
    let mut writer = CheckpointWriter::new();
    for _ in 0..511 {
        writer.append(b"", b"");
    }
    assert_eq!(writer.synced_len(), 0);
    writer.append(b"", b"");
    assert_eq!(writer.synced_len(), 512 * 16);
    assert_eq!(writer.bytes().len(), 512 * 16);
}

#[test]
fn writer_with_batch_of_zero_or_one_syncs_each_record() {
    for batch in [0u64, 1] {
        let mut writer = CheckpointWriter::with_batch_size(batch);
        for i in 1..=5usize {
            writer.append(b"", b"");
            assert_eq!(writer.synced_len(), i * 16);
        }
    }
}

#[test]
fn wait_is_over_without_transactions_or_at_the_barrier() {
    let mut table = TransactionTable::new();
    assert!(wait_oldest_xid_gte(&table, 1));
    assert!(wait_oldest_xid_gte(&table, 100));
    let a = table.begin();
    let b = table.begin();
    assert!(wait_oldest_xid_gte(&table, 0));
    assert!(wait_oldest_xid_gte(&table, 1));
    assert!(!wait_oldest_xid_gte(&table, 2));
    assert!(!wait_oldest_xid_gte(&table, 3));
    table.end(&a);
    assert!(wait_oldest_xid_gte(&table, 2));
    assert!(!wait_oldest_xid_gte(&table, 3));
    table.end(&b);
    assert!(wait_oldest_xid_gte(&table, 3));
}

#[test]
fn barrier_holds_until_earlier_transactions_end() {
    let mut db = DB::open("thorkv");
    let mut checkpointer = Checkpointer::new();
    assert_eq!(db.begin(), Ok(1));
    assert_eq!(db.begin(), Ok(2));
    db.end(1);

    assert!(matches!(run_checkpointer(&mut checkpointer, &mut db), CheckpointStep::Advanced));
    assert_eq!(db.current_phase(), CheckpointPhase::PREPARE);
    assert_eq!(checkpointer.current_barrier(), 3);

    for _ in 0..3 {
        assert!(matches!(run_checkpointer(&mut checkpointer, &mut db), CheckpointStep::Wait));
        assert_eq!(db.current_phase(), CheckpointPhase::PREPARE);
        assert_eq!(db.xtable().oldest_xid(), Some(2));
    }

    db.end(2);
    assert_eq!(db.xtable().oldest_xid(), None);
    assert!(matches!(run_checkpointer(&mut checkpointer, &mut db), CheckpointStep::Advanced));
    assert_eq!(db.current_phase(), CheckpointPhase::RESOLVE);
}

#[test]
fn later_transactions_do_not_hold_a_barrier() {
    let mut db = DB::open("thorkv");
    let mut checkpointer = Checkpointer::new();
    assert!(matches!(run_checkpointer(&mut checkpointer, &mut db), CheckpointStep::Advanced));
    assert_eq!(checkpointer.current_barrier(), 1);
    assert_eq!(db.begin(), Ok(1));
    assert!(matches!(run_checkpointer(&mut checkpointer, &mut db), CheckpointStep::Advanced));
    assert_eq!(db.current_phase(), CheckpointPhase::RESOLVE);
    assert_eq!(checkpointer.current_barrier(), 2);
    assert!(matches!(run_checkpointer(&mut checkpointer, &mut db), CheckpointStep::Wait));
    assert_eq!(db.begin(), Ok(2));
    db.end(1);
    assert!(matches!(run_checkpointer(&mut checkpointer, &mut db), CheckpointStep::Advanced));
    assert_eq!(db.current_phase(), CheckpointPhase::CAPTURE);
}

#[test]
fn a_cycle_visits_the_phases_in_order() {
    let mut db = DB::open("thorkv");
    let mut checkpointer = Checkpointer::new();
    let mut seen = vec![db.current_phase()];
    for _ in 0..2 {
        loop {
            let step = run_checkpointer(&mut checkpointer, &mut db);
            assert!(!matches!(step, CheckpointStep::Wait));
            let phase = db.current_phase();
            assert_eq!(phase, seen[seen.len() - 1].next());
            assert_eq!(db.xtable().phase(), phase);
            seen.push(phase);
            if matches!(step, CheckpointStep::Finished) {
                break;
            }
        }
    }
    let cycle = [
        CheckpointPhase::PREPARE,
        CheckpointPhase::RESOLVE,
        CheckpointPhase::CAPTURE,
        CheckpointPhase::COMPLETE,
        CheckpointPhase::REST,
    ];
    let mut expected = vec![CheckpointPhase::REST];
    expected.extend_from_slice(&cycle);
    expected.extend_from_slice(&cycle);
    assert_eq!(seen, expected);
}

#[test]
fn each_phase_is_logged() {
    let mut db = DB::open("thorkv");
    let mut checkpointer = Checkpointer::new();
    while !matches!(run_checkpointer(&mut checkpointer, &mut db), CheckpointStep::Finished) {}
    assert_eq!(
        entries_of(db.flush_log()),
        vec![
            LogEntry::CPhase(CheckpointPhase::PREPARE),
            LogEntry::CPhase(CheckpointPhase::RESOLVE),
            LogEntry::CPhase(CheckpointPhase::CAPTURE),
            LogEntry::CPhase(CheckpointPhase::COMPLETE),
            LogEntry::CPhase(CheckpointPhase::REST),
        ]
    );
    assert_eq!(db.flush_log(), Vec::<u8>::new());
}

#[test]
fn complete_waits_for_its_barrier() {
    let mut db = DB::open("thorkv");
    let mut checkpointer = Checkpointer::new();
    for _ in 0..3 {
        run_checkpointer(&mut checkpointer, &mut db);
    }
    assert_eq!(db.current_phase(), CheckpointPhase::CAPTURE);
    assert_eq!(db.begin(), Ok(1));
    assert!(matches!(run_checkpointer(&mut checkpointer, &mut db), CheckpointStep::Snapshot(_)));
    assert_eq!(db.current_phase(), CheckpointPhase::COMPLETE);
    assert_eq!(checkpointer.current_barrier(), 2);
    assert!(matches!(run_checkpointer(&mut checkpointer, &mut db), CheckpointStep::Wait));
    db.end(1);
    assert!(matches!(run_checkpointer(&mut checkpointer, &mut db), CheckpointStep::Finished));
    assert_eq!(db.current_phase(), CheckpointPhase::REST);
}

#[test]
fn snapshot_holds_each_key_once_with_its_value() {
    let mut db = DB::open("thorkv");
    assert_eq!(db.put(b"k1", b"v1"), Ok(()));
    assert_eq!(db.put(b"k2", b"v2"), Ok(()));
    assert_eq!(db.put(b"k3", b"old"), Ok(()));
    assert_eq!(db.put(b"k3", b"v3"), Ok(()));
    let mut checkpointer = Checkpointer::new();
    let mut snapshot = None;
    loop {
        match run_checkpointer(&mut checkpointer, &mut db) {
            CheckpointStep::Snapshot(bytes) => snapshot = Some(bytes),
            CheckpointStep::Finished => break,
            CheckpointStep::Advanced => {}
            CheckpointStep::Wait => panic!("no transaction is active"),
        }
    }
    let snapshot = snapshot.unwrap();
    let mut pairs = pairs_of(&snapshot);
    pairs.sort();
    assert_eq!(
        pairs,
        vec![
            (b"k1".to_vec(), b"v1".to_vec()),
            (b"k2".to_vec(), b"v2".to_vec()),
            (b"k3".to_vec(), b"v3".to_vec()),
        ]
    );
    assert_eq!(db.get(b"k1"), Ok(Some(b"v1".to_vec())));
}

#[test]
fn snapshot_of_an_empty_database_is_empty() {
    let mut db = DB::open("thorkv");
    let _ = db.set_phase(CheckpointPhase::PREPARE);
    let _ = db.set_phase(CheckpointPhase::RESOLVE);
    let _ = db.set_phase(CheckpointPhase::CAPTURE);
    assert_eq!(db.save_checkpoint(), Vec::<u8>::new());
}

#[test]
fn snapshot_takes_the_values_from_the_start_of_capture() {
    let mut db = DB::open("thorkv");
    assert_eq!(db.put(b"changed", b"before"), Ok(()));
    assert_eq!(db.put(b"deleted", b"alive"), Ok(()));
    assert_eq!(db.put(b"same", b"same"), Ok(()));
    assert_eq!(db.put(b"revived", b"first"), Ok(()));
    let _ = db.set_phase(CheckpointPhase::PREPARE);
    assert_eq!(db.put(b"prepared", b"p"), Ok(()));
    let _ = db.set_phase(CheckpointPhase::RESOLVE);
    let _ = db.set_phase(CheckpointPhase::CAPTURE);

    assert_eq!(db.put(b"changed", b"after"), Ok(()));
    assert_eq!(db.put(b"changed", b"after again"), Ok(()));
    assert_eq!(db.delete(b"deleted"), Ok(()));
    assert_eq!(db.delete(b"revived"), Ok(()));
    assert_eq!(db.put(b"revived", b"second"), Ok(()));
    assert_eq!(db.put(b"new", b"n"), Ok(()));
    assert_eq!(db.delete(b"never there"), Ok(()));

    let snapshot = map_of(&db.save_checkpoint());
    let mut expected = BTreeMap::new();
    expected.insert(b"changed".to_vec(), b"before".to_vec());
    expected.insert(b"deleted".to_vec(), b"alive".to_vec());
    expected.insert(b"same".to_vec(), b"same".to_vec());
    expected.insert(b"revived".to_vec(), b"first".to_vec());
    expected.insert(b"prepared".to_vec(), b"p".to_vec());
    expected.insert(b"new".to_vec(), b"n".to_vec());
    assert_eq!(snapshot, expected);

    assert_eq!(db.get(b"changed"), Ok(Some(b"after again".to_vec())));
    assert_eq!(db.get(b"deleted"), Ok(None));
    assert_eq!(db.get(b"revived"), Ok(Some(b"second".to_vec())));

    let again = map_of(&db.save_checkpoint());
    let mut live = BTreeMap::new();
    live.insert(b"changed".to_vec(), b"after again".to_vec());
    live.insert(b"same".to_vec(), b"same".to_vec());
    live.insert(b"revived".to_vec(), b"second".to_vec());
    live.insert(b"prepared".to_vec(), b"p".to_vec());
    live.insert(b"new".to_vec(), b"n".to_vec());
    assert_eq!(again, live);
}

#[test]
fn stable_versions_left_after_the_snapshot_are_dropped() {
    let mut db = DB::open("thorkv");
    assert_eq!(db.put(b"a", b"1"), Ok(()));
    assert_eq!(db.put(b"b", b"2"), Ok(()));
    let mut checkpointer = Checkpointer::new();
    for _ in 0..3 {
        run_checkpointer(&mut checkpointer, &mut db);
    }
    assert_eq!(db.current_phase(), CheckpointPhase::CAPTURE);
    let first = match run_checkpointer(&mut checkpointer, &mut db) {
        CheckpointStep::Snapshot(bytes) => map_of(&bytes),
        _ => panic!("the snapshot is due"),
    };
    assert_eq!(first.len(), 2);
    assert_eq!(db.current_phase(), CheckpointPhase::COMPLETE);
    assert_eq!(db.put(b"a", b"3"), Ok(()));
    assert_eq!(db.delete(b"b"), Ok(()));
    assert!(matches!(run_checkpointer(&mut checkpointer, &mut db), CheckpointStep::Finished));

    for _ in 0..3 {
        run_checkpointer(&mut checkpointer, &mut db);
    }
    assert_eq!(db.current_phase(), CheckpointPhase::CAPTURE);
    let second = match run_checkpointer(&mut checkpointer, &mut db) {
        CheckpointStep::Snapshot(bytes) => map_of(&bytes),
        _ => panic!("the snapshot is due"),
    };
    let mut expected = BTreeMap::new();
    expected.insert(b"a".to_vec(), b"3".to_vec());
    assert_eq!(second, expected);
}

#[test]
fn busy_wait_interval_is_a_millisecond() {
    assert_eq!(BUSY_WAIT_INTERVAL_MILLIS, 1);
}

#[test]
fn database_logs_each_change_before_it() {
    let mut db = DB::open("thorkv");
    assert_eq!(db.get(b"k"), Ok(None));
    assert_eq!(db.put(b"k", b"v1"), Ok(()));
    assert_eq!(db.get(b"k"), Ok(Some(b"v1".to_vec())));
    assert_eq!(db.put(b"k", b"v2"), Ok(()));
    assert_eq!(db.delete(b"k"), Ok(()));
    assert_eq!(db.get(b"k"), Ok(None));
    assert_eq!(db.delete(b"k"), Ok(()));
    assert_eq!(
        entries_of(db.flush_log()),
        vec![
            LogEntry::Update {
                xid: 1,
                key: b"k".to_vec(),
                value: Some(b"v1".to_vec()),
                previous_value: None,
            },
            LogEntry::Update {
                xid: 2,
                key: b"k".to_vec(),
                value: Some(b"v2".to_vec()),
                previous_value: Some(b"v1".to_vec()),
            },
            LogEntry::Update {
                xid: 3,
                key: b"k".to_vec(),
                value: None,
                previous_value: Some(b"v2".to_vec()),
            },
            LogEntry::Update { xid: 4, key: b"k".to_vec(), value: None, previous_value: None },
        ]
    );
    assert_eq!(db.xtable().next_xid(), 5);
    assert_eq!(db.xtable().oldest_xid(), None);
}

#[test]
fn database_over_a_filled_store() {
    let mut live = LFMapStorage::new();
    live.put(b"x", b"y");
    let mut db = DB::with_storage(live, LFMapStorage::new());
    assert_eq!(db.current_phase(), CheckpointPhase::REST);
    assert_eq!(db.get(b"x"), Ok(Some(b"y".to_vec())));
    assert_eq!(db.begin(), Ok(1));
    assert_eq!(db.set_phase(CheckpointPhase::PREPARE), 2);
    assert_eq!(db.current_phase(), CheckpointPhase::PREPARE);
    assert_eq!(db.flush_log(), vec![0, 0, 0, 0, 0, 0, 0, 2, 5, 2]);
}

#[test]
fn unknown_kinds_of_error_are_told_apart() {
    let a = Error { kind: ErrorKind::UnknownPhase, detail: 1 };
    let b = Error { kind: ErrorKind::UnknownEntryType, detail: 1 };
    assert_ne!(a, b);
}

#[test]
fn a_phase_out_of_order_is_refused() {
    let mut db = DB::open("thorkv");
    assert_eq!(db.begin(), Ok(1));
    for phase in [
        CheckpointPhase::REST,
        CheckpointPhase::RESOLVE,
        CheckpointPhase::CAPTURE,
        CheckpointPhase::COMPLETE,
    ] {
        assert_eq!(db.try_set_phase(phase), None);
        assert_eq!(db.current_phase(), CheckpointPhase::REST);
        assert_eq!(db.xtable().phase(), CheckpointPhase::REST);
    }
    assert_eq!(db.flush_log(), Vec::<u8>::new());
    assert_eq!(db.try_set_phase(CheckpointPhase::PREPARE), Some(2));
    assert_eq!(db.current_phase(), CheckpointPhase::PREPARE);
    assert_eq!(db.try_set_phase(CheckpointPhase::PREPARE), None);
    assert_eq!(db.try_set_phase(CheckpointPhase::CAPTURE), None);
    assert_eq!(db.try_set_phase(CheckpointPhase::RESOLVE), Some(2));
    assert_eq!(db.flush_log(), vec![0, 0, 0, 0, 0, 0, 0, 2, 5, 2, 0, 0, 0, 0, 0, 0, 0, 2, 5, 3]);
}

#[test]
fn no_stable_versions_arise_outside_of_capture() {
    let mut db = DB::open("thorkv");
    assert_eq!(db.put(b"a", b"1"), Ok(()));
    let _ = db.set_phase(CheckpointPhase::PREPARE);
    assert_eq!(db.put(b"a", b"2"), Ok(()));
    assert_eq!(db.delete(b"a"), Ok(()));
    assert_eq!(db.put(b"b", b"3"), Ok(()));
    let _ = db.set_phase(CheckpointPhase::RESOLVE);
    assert_eq!(db.put(b"b", b"4"), Ok(()));
    let _ = db.set_phase(CheckpointPhase::CAPTURE);
    let mut expected = BTreeMap::new();
    expected.insert(b"b".to_vec(), b"4".to_vec());
    assert_eq!(map_of(&db.save_checkpoint()), expected);
}
