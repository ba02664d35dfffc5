use thorkv::log::logentry::{LogEntry, LogEntryType, LogicalOperation};
use thorkv::log::serde::{
    deserialize_u8_vec, deserialize_usize, deserialize_xid, serialize_u8_vec, serialize_usize,
    serialize_xid, Cursor, Deserialize, Serialize,
};
use thorkv::types::{CheckpointPhase, Error, ErrorKind};

#[test]
fn serde_u8_vec() {
    let v: Vec<u8> = vec![1, 2, 3];
    // Serialize
    let mut res = Vec::new();
    serialize_u8_vec(&mut res, &v);
    // Deserialize
    let v_out = deserialize_u8_vec(&mut Cursor::new(&res)).unwrap();
    assert_eq!(v_out, v);
}

#[test]
fn u8_vec_is_length_then_bytes() {
    let mut res = vec![0xaa];
    serialize_u8_vec(&mut res, &[1, 2, 3]);
    assert_eq!(res, vec![0xaa, 0, 0, 0, 0, 0, 0, 0, 3, 1, 2, 3]);
}

#[test]
fn empty_u8_vec_is_its_length() {
    let mut res = Vec::new();
    serialize_u8_vec(&mut res, &[]);
    assert_eq!(res, vec![0, 0, 0, 0, 0, 0, 0, 0]);
    let mut rdr = Cursor::new(&res);
    assert_eq!(deserialize_u8_vec(&mut rdr).unwrap(), Vec::<u8>::new());
    assert_eq!(rdr.offset(), 8);
}

#[test]
fn usize_is_big_endian_u64() {
    let mut res = Vec::new();
    serialize_usize(&mut res, 0x0102);
    assert_eq!(res, vec![0, 0, 0, 0, 0, 0, 1, 2]);
    let mut rdr = Cursor::new(&res);
    assert_eq!(deserialize_usize(&mut rdr), Ok(0x0102));
    assert_eq!(rdr.offset(), 8);
}

#[test]
fn xid_is_big_endian_u64() {
    let mut res = Vec::new();
    serialize_xid(&mut res, &0x0102_0304_0506_0708);
    assert_eq!(res, vec![1, 2, 3, 4, 5, 6, 7, 8]);
    let mut rdr = Cursor::new(&res);
    assert_eq!(deserialize_xid(&mut rdr), Ok(0x0102_0304_0506_0708));
    assert_eq!(rdr.offset(), 8);
}

#[test]
fn xid_round_trip_at_the_limits() {
    for xid in [0u64, 1, 255, 256, u64::MAX - 1, u64::MAX] {
        let mut res = Vec::new();
        serialize_xid(&mut res, &xid);
        assert_eq!(res.len(), 8);
        assert_eq!(deserialize_xid(&mut Cursor::new(&res)), Ok(xid));
    }
}

#[test]
fn cursor_reads_in_sequence() {
    let bytes = [7u8, 0, 0, 0, 0, 0, 0, 1, 0, 9];
    let mut rdr = Cursor::new(&bytes);
    assert_eq!(rdr.read_u8(), Ok(7));
    assert_eq!(rdr.offset(), 1);
    assert_eq!(rdr.read_u64(), Ok(256));
    assert_eq!(rdr.offset(), 9);
    assert_eq!(rdr.read_u8(), Ok(9));
    assert_eq!(rdr.read_u8(), Err(Error { kind: ErrorKind::UnexpectedEnd, detail: 10 }));
    assert_eq!(rdr.offset(), 10);
    rdr.set_position(1);
    assert_eq!(rdr.read_u64(), Ok(256));
}

#[test]
fn short_input_is_unexpected_end() {
    let bytes = [0u8, 0, 0, 0, 0, 0, 0];
    let mut rdr = Cursor::new(&bytes);
    assert_eq!(
        deserialize_usize(&mut rdr),
        Err(Error { kind: ErrorKind::UnexpectedEnd, detail: 0 })
    );
    assert_eq!(rdr.offset(), 0);
    assert_eq!(
        deserialize_xid(&mut rdr),
        Err(Error { kind: ErrorKind::UnexpectedEnd, detail: 0 })
    );
}

#[test]
fn u8_vec_shorter_than_its_length_is_unexpected_end() {
    let bytes = [9u8, 0, 0, 0, 0, 0, 0, 0, 3, 1, 2];
    let mut rdr = Cursor::new(&bytes);
    rdr.set_position(1);
    assert_eq!(
        deserialize_u8_vec(&mut rdr),
        Err(Error { kind: ErrorKind::UnexpectedEnd, detail: 1 })
    );
    assert_eq!(rdr.offset(), 1);
}

#[test]
fn entry_type_tags() {
    assert_eq!(LogEntryType::XBEGIN.tag(), 1);
    assert_eq!(LogEntryType::XCOMMIT.tag(), 2);
    assert_eq!(LogEntryType::XABORT.tag(), 3);
    assert_eq!(LogEntryType::UPDATE.tag(), 4);
    assert_eq!(LogEntryType::CPHASE.tag(), 5);
    for tag in 1u8..=5 {
        assert_eq!(LogEntryType::try_from(tag).unwrap().tag(), tag);
    }
    assert_eq!(LogEntryType::try_from(0), Err(()));
    assert_eq!(LogEntryType::try_from(6), Err(()));
}

#[test]
fn xbegin_encoding() {
    let entry = LogEntry::XBegin { xid: 258 };
    assert_eq!(entry.serialize(), vec![1, 0, 0, 0, 0, 0, 0, 1, 2]);
    assert_eq!(LogEntry::XCommit { xid: 258 }.serialize(), vec![2, 0, 0, 0, 0, 0, 0, 1, 2]);
    assert_eq!(LogEntry::XAbort { xid: 258 }.serialize(), vec![3, 0, 0, 0, 0, 0, 0, 1, 2]);
}

#[test]
fn update_encoding() {
    let entry = LogEntry::Update {
        xid: 1,
        key: b"k".to_vec(),
        value: Some(b"vw".to_vec()),
        previous_value: None,
    };
    let mut expected = vec![4u8];
    expected.extend_from_slice(&[0, 0, 0, 0, 0, 0, 0, 1]);
    expected.extend_from_slice(&[0, 0, 0, 0, 0, 0, 0, 1, b'k']);
    expected.extend_from_slice(&[1, 0, 0, 0, 0, 0, 0, 0, 2, b'v', b'w']);
    expected.extend_from_slice(&[0]);
    assert_eq!(entry.serialize(), expected);
}

#[test]
fn cphase_encoding() {
    assert_eq!(LogEntry::CPhase(CheckpointPhase::REST).serialize(), vec![5, 1]);
    assert_eq!(LogEntry::CPhase(CheckpointPhase::PREPARE).serialize(), vec![5, 2]);
    assert_eq!(LogEntry::CPhase(CheckpointPhase::RESOLVE).serialize(), vec![5, 3]);
    assert_eq!(LogEntry::CPhase(CheckpointPhase::CAPTURE).serialize(), vec![5, 4]);
    assert_eq!(LogEntry::CPhase(CheckpointPhase::COMPLETE).serialize(), vec![5, 5]);
}

fn sample_entries() -> Vec<LogEntry> {
    vec![
        LogEntry::XBegin { xid: 1 },
        LogEntry::XCommit { xid: u64::MAX },
        LogEntry::XAbort { xid: 0 },
        LogEntry::Update {
            xid: 7,
            key: b"foo".to_vec(),
            value: Some(b"bar".to_vec()),
            previous_value: Some(b"baz".to_vec()),
        },
        LogEntry::Update {
            xid: 8,
            key: b"foo".to_vec(),
            value: Some(b"bar".to_vec()),
            previous_value: None,
        },
        LogEntry::Update {
            xid: 9,
            key: b"foo".to_vec(),
            value: None,
            previous_value: Some(vec![]),
        },
        LogEntry::Update { xid: 10, key: vec![], value: None, previous_value: None },
        LogEntry::CPhase(CheckpointPhase::REST),
        LogEntry::CPhase(CheckpointPhase::PREPARE),
        LogEntry::CPhase(CheckpointPhase::RESOLVE),
        LogEntry::CPhase(CheckpointPhase::CAPTURE),
        LogEntry::CPhase(CheckpointPhase::COMPLETE),
    ]
}

#[test]
fn entries_round_trip() {
    for entry in sample_entries() {
        let bytes = entry.serialize();
        assert_eq!(LogEntry::deserialize(&bytes), Ok(entry));
    }
}

#[test]
fn entries_round_trip_through_the_trait() {
    for entry in sample_entries() {
        let mut bytes = vec![0xee];
        bytes.extend_from_slice(&entry.serialize());
        bytes.push(0xff);
        let mut rdr = Cursor::new(&bytes);
        rdr.set_position(1);
        let mut read = LogEntry::XBegin { xid: 0 };
        assert_eq!(Deserialize::deserialize(&mut read, &mut rdr), Ok(()));
        assert_eq!(read, entry);
        assert_eq!(rdr.offset(), bytes.len() - 1);
    }
}

#[test]
fn failed_read_through_the_trait_changes_nothing() {
    let bytes = [4u8, 0, 0, 0, 0, 0, 0, 0, 1, 0, 0];
    let mut rdr = Cursor::new(&bytes);
    let mut read = LogEntry::XBegin { xid: 3 };
    assert_eq!(
        Deserialize::deserialize(&mut read, &mut rdr),
        Err(Error { kind: ErrorKind::UnexpectedEnd, detail: 9 })
    );
    assert_eq!(read, LogEntry::XBegin { xid: 3 });
    assert_eq!(rdr.offset(), 0);
}

#[test]
fn what_follows_an_entry_is_ignored() {
    let mut bytes = LogEntry::XBegin { xid: 5 }.serialize();
    bytes.extend_from_slice(&[9, 9, 9]);
    assert_eq!(LogEntry::deserialize(&bytes), Ok(LogEntry::XBegin { xid: 5 }));
}

#[test]
fn empty_input_is_unexpected_end() {
    assert_eq!(
        LogEntry::deserialize(&[]),
        Err(Error { kind: ErrorKind::UnexpectedEnd, detail: 0 })
    );
}

#[test]
fn unknown_tag_is_an_error() {
    for tag in [0u8, 6, 255] {
        let bytes = [tag, 0, 0, 0, 0, 0, 0, 0, 1];
        assert_eq!(
            LogEntry::deserialize(&bytes),
            Err(Error { kind: ErrorKind::UnknownEntryType, detail: tag as u64 })
        );
    }
}

#[test]
fn unknown_phase_is_an_error() {
    for ordinal in [0u8, 6, 255] {
        assert_eq!(
            LogEntry::deserialize(&[5, ordinal]),
            Err(Error { kind: ErrorKind::UnknownPhase, detail: ordinal as u64 })
        );
    }
}

#[test]
fn truncated_entry_is_unexpected_end() {
    assert_eq!(
        LogEntry::deserialize(&[1, 0, 0, 0]),
        Err(Error { kind: ErrorKind::UnexpectedEnd, detail: 1 })
    );
    assert_eq!(LogEntry::deserialize(&[5]), Err(Error { kind: ErrorKind::UnexpectedEnd, detail: 1 }));
    let whole = LogEntry::Update {
        xid: 1,
        key: b"key".to_vec(),
        value: Some(b"value".to_vec()),
        previous_value: Some(b"old".to_vec()),
    }
    .serialize();
    for len in 0..whole.len() {
        let r = LogEntry::deserialize(&whole[..len]);
        assert_eq!(r.unwrap_err().kind, ErrorKind::UnexpectedEnd);
    }
}

#[test]
fn presence_byte_other_than_one_is_absent() {
    let mut bytes = vec![4u8];
    bytes.extend_from_slice(&[0, 0, 0, 0, 0, 0, 0, 3]);
    bytes.extend_from_slice(&[0, 0, 0, 0, 0, 0, 0, 1, b'k']);
    bytes.extend_from_slice(&[2]);
    bytes.extend_from_slice(&[0]);
    assert_eq!(
        LogEntry::deserialize(&bytes),
        Ok(LogEntry::Update { xid: 3, key: b"k".to_vec(), value: None, previous_value: None })
    );
}

#[test]
fn logical_operations_compare_by_their_fields() {
    let put = LogicalOperation::Put { key: "a".to_string(), value: "b".to_string() };
    assert_eq!(put, LogicalOperation::Put { key: "a".to_string(), value: "b".to_string() });
    assert_ne!(put, LogicalOperation::Delete { key: "a".to_string() });
}
