use vstd::prelude::*;
use vstd::std_specs::convert::TryFromSpecImpl;

verus! {

/// Identifier of a transaction: issued in increasing order, starting at 1.
pub type Xid = u64;

/// An optional byte string as a mathematical value.
pub open spec fn optional_view(value: Option<Vec<u8>>) -> Option<Seq<u8>> {
    match value {
        Some(data) => Some(data@),
        None => None,
    }
}

/// The ways in which an operation of the store can fail.
#[derive(Clone, Copy, Debug, PartialEq, Eq, Structural)]
pub enum ErrorKind {
    /// The input ended inside a value; the detail is the offset of the value.
    UnexpectedEnd,
    /// A length prefix exceeds the address space; the detail is the length.
    LengthOverflow,
    /// A log entry starts with an unknown type tag; the detail is the tag.
    UnknownEntryType,
    /// A phase ordinal is out of range; the detail is the ordinal.
    UnknownPhase,
    /// Every transaction id has been issued; the detail is the last one.
    XidExhausted,
}

/// An error of the store: what went wrong, and the value it went wrong on.
#[derive(Clone, Copy, Debug, PartialEq, Eq, Structural)]
pub struct Error {
    pub kind: ErrorKind,
    pub detail: u64,
}

/// The decimal digit `d`, for `d` below ten.
pub open spec fn digit_char(d: nat) -> char {
    if d == 0 {
        '0'
    } else if d == 1 {
        '1'
    } else if d == 2 {
        '2'
    } else if d == 3 {
        '3'
    } else if d == 4 {
        '4'
    } else if d == 5 {
        '5'
    } else if d == 6 {
        '6'
    } else if d == 7 {
        '7'
    } else if d == 8 {
        '8'
    } else {
        '9'
    }
}

/// `n` written in decimal, without sign or leading zeros.
pub open spec fn decimal_text(n: nat) -> Seq<char>
    decreases n,
{
    if n < 10 {
        seq![digit_char(n)]
    } else {
        decimal_text(n / 10).push(digit_char(n % 10))
    }
}

/// `format!` with the pattern `"{}{}"`, a string and a `u64`: the string,
/// followed by what `Display` prints for the number, which is its decimal
/// digits.
#[verifier::external_body]
fn label_and_number(label: &str, value: u64) -> (text: String)
    ensures
        text@ == label@ + decimal_text(value as nat),
{
    format!("{}{}", label, value)
}

impl Error {
    /// The text that introduces the detail of an error of kind `kind`.
    pub open spec fn label(kind: ErrorKind) -> Seq<char> {
        match kind {
            ErrorKind::UnexpectedEnd => "Unexpected end of input at offset: "@,
            ErrorKind::LengthOverflow => "Length exceeds the address space: "@,
            ErrorKind::UnknownEntryType => "Unknown log entry type: "@,
            ErrorKind::UnknownPhase => "Unknown checkpoint phase: "@,
            ErrorKind::XidExhausted => "Transaction ids exhausted after: "@,
        }
    }

    /// A description of the error for people to read.
    pub fn message(&self) -> (text: String)
        ensures
            text@ == Self::label(self.kind) + decimal_text(self.detail as nat),
    {
        let label = match self.kind {
            ErrorKind::UnexpectedEnd => "Unexpected end of input at offset: ",
            ErrorKind::LengthOverflow => "Length exceeds the address space: ",
            ErrorKind::UnknownEntryType => "Unknown log entry type: ",
            ErrorKind::UnknownPhase => "Unknown checkpoint phase: ",
            ErrorKind::XidExhausted => "Transaction ids exhausted after: ",
        };
        label_and_number(label, self.detail)
    }
}

/// The phases of a checkpoint, in the order in which a cycle visits them.
#[allow(non_camel_case_types)]
#[derive(Clone, Copy, Debug, PartialEq, Eq, Structural)]
pub enum CheckpointPhase {
    REST,
    PREPARE,
    RESOLVE,
    CAPTURE,
    COMPLETE,
}

impl CheckpointPhase {
    /// The number that stands for the phase on disk.
    pub open spec fn spec_ordinal(self) -> u8 {
        match self {
            CheckpointPhase::REST => 1,
            CheckpointPhase::PREPARE => 2,
            CheckpointPhase::RESOLVE => 3,
            CheckpointPhase::CAPTURE => 4,
            CheckpointPhase::COMPLETE => 5,
        }
    }

    /// The phase that a cycle enters after this one.
    pub open spec fn spec_next(self) -> CheckpointPhase {
        match self {
            CheckpointPhase::REST => CheckpointPhase::PREPARE,
            CheckpointPhase::PREPARE => CheckpointPhase::RESOLVE,
            CheckpointPhase::RESOLVE => CheckpointPhase::CAPTURE,
            CheckpointPhase::CAPTURE => CheckpointPhase::COMPLETE,
            CheckpointPhase::COMPLETE => CheckpointPhase::REST,
        }
    }

    /// The phase with ordinal `v`, if there is one.
    pub open spec fn from_ordinal(v: u8) -> Result<CheckpointPhase, Error> {
        if v == 1 {
            Ok(CheckpointPhase::REST)
        } else if v == 2 {
            Ok(CheckpointPhase::PREPARE)
        } else if v == 3 {
            Ok(CheckpointPhase::RESOLVE)
        } else if v == 4 {
            Ok(CheckpointPhase::CAPTURE)
        } else if v == 5 {
            Ok(CheckpointPhase::COMPLETE)
        } else {
            Err(Error { kind: ErrorKind::UnknownPhase, detail: v as u64 })
        }
    }

    #[verifier::when_used_as_spec(spec_ordinal)]
    pub fn ordinal(self) -> (v: u8)
        ensures
            v == self.spec_ordinal(),
    {
        match self {
            CheckpointPhase::REST => 1,
            CheckpointPhase::PREPARE => 2,
            CheckpointPhase::RESOLVE => 3,
            CheckpointPhase::CAPTURE => 4,
            CheckpointPhase::COMPLETE => 5,
        }
    }

    #[verifier::when_used_as_spec(spec_next)]
    pub fn next(self) -> (phase: CheckpointPhase)
        ensures
            phase == self.spec_next(),
    {
        match self {
            CheckpointPhase::REST => CheckpointPhase::PREPARE,
            CheckpointPhase::PREPARE => CheckpointPhase::RESOLVE,
            CheckpointPhase::RESOLVE => CheckpointPhase::CAPTURE,
            CheckpointPhase::CAPTURE => CheckpointPhase::COMPLETE,
            CheckpointPhase::COMPLETE => CheckpointPhase::REST,
        }
    }
}

/// The phases form one cycle: from REST the steps lead through PREPARE,
/// RESOLVE, CAPTURE and COMPLETE back to REST, and from any phase five
/// steps lead back to it and fewer do not.
pub proof fn lemma_phase_cycle(phase: CheckpointPhase)
    ensures
        CheckpointPhase::REST.next() == CheckpointPhase::PREPARE,
        CheckpointPhase::PREPARE.next() == CheckpointPhase::RESOLVE,
        CheckpointPhase::RESOLVE.next() == CheckpointPhase::CAPTURE,
        CheckpointPhase::CAPTURE.next() == CheckpointPhase::COMPLETE,
        CheckpointPhase::COMPLETE.next() == CheckpointPhase::REST,
        phase.next() != phase,
        phase.next().next() != phase,
        phase.next().next().next() != phase,
        phase.next().next().next().next() != phase,
        phase.next().next().next().next().next() == phase,
{
}

impl TryFrom<u8> for CheckpointPhase {
    type Error = Error;

    fn try_from(v: u8) -> (r: Result<Self, Self::Error>) {
        if v == 1 {
            Ok(CheckpointPhase::REST)
        } else if v == 2 {
            Ok(CheckpointPhase::PREPARE)
        } else if v == 3 {
            Ok(CheckpointPhase::RESOLVE)
        } else if v == 4 {
            Ok(CheckpointPhase::CAPTURE)
        } else if v == 5 {
            Ok(CheckpointPhase::COMPLETE)
        } else {
            Err(Error { kind: ErrorKind::UnknownPhase, detail: v as u64 })
        }
    }
}

impl TryFromSpecImpl<u8> for CheckpointPhase {
    open spec fn obeys_try_from_spec() -> bool {
        true
    }

    open spec fn try_from_spec(v: u8) -> Result<Self, Self::Error> {
        CheckpointPhase::from_ordinal(v)
    }
}

} // verus!
