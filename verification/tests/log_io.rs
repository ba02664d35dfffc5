use thorkv::log::io::{LogReader, LogWriter};
use thorkv::log::logentry::LogEntry;
use thorkv::log::serde::Serialize;
use thorkv::log::{LogManager, BATCH_SIZE};
use thorkv::types::{CheckpointPhase, Error, ErrorKind};

#[test]
fn write_and_read_log() {
    let logs = [LogEntry::Update {
        xid: 1,
        key: "foo".as_bytes().to_vec(),
        value: Some("bar".as_bytes().to_vec()),
        previous_value: None,
    }];

    let bytes = {
        let mut writer = LogWriter::new();
        writer.write(&logs[0]);
        writer.flush()
    };

    let mut reader = LogReader::new(bytes);
    let log1 = reader.read().unwrap().unwrap();
    assert_eq!(log1, logs[0]);
}

#[test]
fn record_is_length_then_entry() {
    let mut writer = LogWriter::new();
    writer.write(&LogEntry::CPhase(CheckpointPhase::CAPTURE));
    assert_eq!(writer.flush(), vec![0, 0, 0, 0, 0, 0, 0, 2, 5, 4]);
}

#[test]
fn flush_hands_over_what_was_written_once() {
    let mut writer = LogWriter::new();
    assert_eq!(writer.flush(), Vec::<u8>::new());
    writer.write(&LogEntry::XBegin { xid: 1 });
    writer.write(&LogEntry::XCommit { xid: 1 });
    let mut expected = vec![0, 0, 0, 0, 0, 0, 0, 9];
    expected.extend_from_slice(&LogEntry::XBegin { xid: 1 }.serialize());
    expected.extend_from_slice(&[0, 0, 0, 0, 0, 0, 0, 9]);
    expected.extend_from_slice(&LogEntry::XCommit { xid: 1 }.serialize());
    assert_eq!(writer.flush(), expected);
    assert_eq!(writer.flush(), Vec::<u8>::new());
}

fn entries() -> Vec<LogEntry> {
    vec![
        LogEntry::XBegin { xid: 1 },
        LogEntry::Update {
            xid: 1,
            key: b"k1".to_vec(),
            value: Some(b"v1".to_vec()),
            previous_value: None,
        },
        LogEntry::CPhase(CheckpointPhase::PREPARE),
        LogEntry::Update {
            xid: 1,
            key: b"k1".to_vec(),
            value: None,
            previous_value: Some(b"v1".to_vec()),
        },
        LogEntry::XAbort { xid: 1 },
        LogEntry::XCommit { xid: 2 },
    ]
}

fn log_of(entries: &[LogEntry]) -> Vec<u8> {
    let mut writer = LogWriter::new();
    for entry in entries {
        writer.write(entry);
    }
    writer.flush()
}

#[test]
fn log_reads_back_in_order() {
    let mut reader = LogReader::new(log_of(&entries()));
    for entry in entries() {
        assert_eq!(reader.read(), Ok(Some(entry)));
    }
    assert_eq!(reader.read(), Ok(None));
    assert_eq!(reader.read(), Ok(None));
}

#[test]
fn empty_log_is_at_its_end() {
    let mut reader = LogReader::new(Vec::new());
    assert_eq!(reader.read(), Ok(None));
}

#[test]
fn truncated_tail_is_the_end_of_the_log() {
    let whole = entries();
    let good = log_of(&whole[..2]);
    let next = log_of(&whole[3..4]);
    for len in 0..next.len() {
        let mut bytes = good.clone();
        bytes.extend_from_slice(&next[..len]);
        let mut reader = LogReader::new(bytes);
        assert_eq!(reader.read(), Ok(Some(entries().remove(0))));
        assert_eq!(reader.read(), Ok(Some(entries().remove(1))));
        assert_eq!(reader.read(), Ok(None));
        assert_eq!(reader.read(), Ok(None));
    }
}

#[test]
fn empty_record_is_the_end_of_the_log() {
    let mut bytes = log_of(&entries()[..1]);
    bytes.extend_from_slice(&[0, 0, 0, 0, 0, 0, 0, 0]);
    bytes.extend_from_slice(&log_of(&entries()[1..2]));
    let mut reader = LogReader::new(bytes);
    assert_eq!(reader.read(), Ok(Some(LogEntry::XBegin { xid: 1 })));
    assert_eq!(reader.read(), Ok(None));
    assert_eq!(reader.read(), Ok(None));
}

#[test]
fn corrupt_record_stops_the_reader() {
    let mut bytes = log_of(&entries()[..1]);
    bytes.extend_from_slice(&[0, 0, 0, 0, 0, 0, 0, 2, 9, 9]);
    bytes.extend_from_slice(&log_of(&entries()[1..2]));
    let mut reader = LogReader::new(bytes);
    assert_eq!(reader.read(), Ok(Some(LogEntry::XBegin { xid: 1 })));
    let corrupt = Err(Error { kind: ErrorKind::UnknownEntryType, detail: 9 });
    assert_eq!(reader.read(), corrupt);
    assert_eq!(reader.read(), corrupt);
}

#[test]
fn record_shorter_than_its_entry_is_corrupt() {
    let bytes = vec![0, 0, 0, 0, 0, 0, 0, 3, 1, 0, 0, 0, 0, 0, 0, 0, 0, 0, 0];
    let mut reader = LogReader::new(bytes);
    assert_eq!(reader.read(), Err(Error { kind: ErrorKind::UnexpectedEnd, detail: 1 }));
}

#[test]
fn record_longer_than_its_entry_is_skipped_whole() {
    let mut bytes = vec![0, 0, 0, 0, 0, 0, 0, 4, 5, 2, 0xaa, 0xbb];
    bytes.extend_from_slice(&log_of(&[LogEntry::XBegin { xid: 4 }]));
    let mut reader = LogReader::new(bytes);
    assert_eq!(reader.read(), Ok(Some(LogEntry::CPhase(CheckpointPhase::PREPARE))));
    assert_eq!(reader.read(), Ok(Some(LogEntry::XBegin { xid: 4 })));
    assert_eq!(reader.read(), Ok(None));
}

#[test]
fn manager_hands_back_each_record() {
    let mut manager = LogManager::new();
    let first = manager.append_log(LogEntry::XBegin { xid: 3 });
    assert_eq!(first, Some(log_of(&[LogEntry::XBegin { xid: 3 }])));
    let second = manager.append_log(LogEntry::CPhase(CheckpointPhase::REST));
    assert_eq!(second, Some(vec![0, 0, 0, 0, 0, 0, 0, 2, 5, 1]));
    assert_eq!(manager.flush(), Vec::<u8>::new());
}

#[test]
fn manager_hands_back_full_batches() {
    assert_eq!(BATCH_SIZE, 32);
    let mut manager = LogManager::with_batch_size(3);
    let all = entries();
    assert_eq!(manager.append_log(entries().remove(0)), None);
    assert_eq!(manager.append_log(entries().remove(1)), None);
    assert_eq!(manager.append_log(entries().remove(2)), Some(log_of(&all[..3])));
    assert_eq!(manager.append_log(entries().remove(3)), None);
    assert_eq!(manager.flush(), log_of(&all[3..4]));
    assert_eq!(manager.flush(), Vec::<u8>::new());
    assert_eq!(manager.append_log(entries().remove(4)), None);
    assert_eq!(manager.append_log(entries().remove(5)), None);
    assert_eq!(manager.append_log(entries().remove(0)), Some(log_of(&[
        entries().remove(4),
        entries().remove(5),
        entries().remove(0),
    ])));
}

#[test]
fn manager_with_batch_of_zero_hands_back_each_record() {
    let mut manager = LogManager::with_batch_size(0);
    assert_eq!(manager.append_log(LogEntry::XAbort { xid: 1 }), Some(log_of(&[LogEntry::XAbort { xid: 1 }])));
}
