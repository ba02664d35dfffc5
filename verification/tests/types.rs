use thorkv::types::{CheckpointPhase, Error, ErrorKind};

#[test]
fn phase_ordinals() {
    assert_eq!(CheckpointPhase::REST.ordinal(), 1);
    assert_eq!(CheckpointPhase::PREPARE.ordinal(), 2);
    assert_eq!(CheckpointPhase::RESOLVE.ordinal(), 3);
    assert_eq!(CheckpointPhase::CAPTURE.ordinal(), 4);
    assert_eq!(CheckpointPhase::COMPLETE.ordinal(), 5);
}

#[test]
fn phase_from_ordinal() {
    assert_eq!(CheckpointPhase::try_from(1), Ok(CheckpointPhase::REST));
    assert_eq!(CheckpointPhase::try_from(2), Ok(CheckpointPhase::PREPARE));
    assert_eq!(CheckpointPhase::try_from(3), Ok(CheckpointPhase::RESOLVE));
    assert_eq!(CheckpointPhase::try_from(4), Ok(CheckpointPhase::CAPTURE));
    assert_eq!(CheckpointPhase::try_from(5), Ok(CheckpointPhase::COMPLETE));
}

#[test]
fn phase_from_unknown_ordinal() {
    for v in [0u8, 6, 7, 255] {
        assert_eq!(
            CheckpointPhase::try_from(v),
            Err(Error { kind: ErrorKind::UnknownPhase, detail: v as u64 })
        );
    }
}

#[test]
fn phases_form_a_cycle() {
    let mut phase = CheckpointPhase::REST;
    let mut seen = Vec::new();
    for _ in 0..5 {
        seen.push(phase);
        phase = phase.next();
    }
    assert_eq!(
        seen,
        vec![
            CheckpointPhase::REST,
            CheckpointPhase::PREPARE,
            CheckpointPhase::RESOLVE,
            CheckpointPhase::CAPTURE,
            CheckpointPhase::COMPLETE,
        ]
    );
    assert_eq!(phase, CheckpointPhase::REST);
}

#[test]
fn error_messages() {
    let e = Error { kind: ErrorKind::UnknownPhase, detail: 9 };
    assert_eq!(e.message(), "Unknown checkpoint phase: 9");
    let e = Error { kind: ErrorKind::UnknownEntryType, detail: 0 };
    assert_eq!(e.message(), "Unknown log entry type: 0");
    let e = Error { kind: ErrorKind::UnexpectedEnd, detail: 1234 };
    assert_eq!(e.message(), "Unexpected end of input at offset: 1234");
    let e = Error { kind: ErrorKind::LengthOverflow, detail: u64::MAX };
    assert_eq!(e.message(), "Length exceeds the address space: 18446744073709551615");
    let e = Error { kind: ErrorKind::XidExhausted, detail: 10 };
    assert_eq!(e.message(), "Transaction ids exhausted after: 10");
}
