//! The entries of the write-ahead log and their encoding: a type tag, then
//! what the variant holds.

use vstd::prelude::*;
use vstd::std_specs::convert::TryFromSpecImpl;

use crate::log::serde::{
    be_bytes, decoded_u64, decoded_u8, decoded_u8_vec, deserialize_u8_vec, deserialize_xid,
    lemma_decoded_u64, lemma_decoded_u8_vec, lemma_occurs_at_split,
    occurs_at, serialize_u8_vec, serialize_xid, u8_vec_bytes, write_u8, Cursor, Deserialize,
    Serialize,
};
use crate::types::{optional_view, CheckpointPhase, Error, ErrorKind, Xid};

verus! {

/// The type tags of the log entries.
#[allow(non_camel_case_types)]
#[derive(Clone, Copy, Debug, PartialEq, Eq, Structural)]
pub enum LogEntryType {
    XBEGIN,
    XCOMMIT,
    XABORT,
    UPDATE,
    /// Tracks the current checkpointing phase.
    CPHASE,
}

impl LogEntryType {
    /// The byte that opens an entry of this type.
    pub open spec fn spec_tag(self) -> u8 {
        match self {
            LogEntryType::XBEGIN => 1,
            LogEntryType::XCOMMIT => 2,
            LogEntryType::XABORT => 3,
            LogEntryType::UPDATE => 4,
            LogEntryType::CPHASE => 5,
        }
    }

    /// The type with tag `v`, if there is one.
    pub open spec fn from_tag(v: u8) -> Result<LogEntryType, ()> {
        if v == 1 {
            Ok(LogEntryType::XBEGIN)
        } else if v == 2 {
            Ok(LogEntryType::XCOMMIT)
        } else if v == 3 {
            Ok(LogEntryType::XABORT)
        } else if v == 4 {
            Ok(LogEntryType::UPDATE)
        } else if v == 5 {
            Ok(LogEntryType::CPHASE)
        } else {
            Err(())
        }
    }

    #[verifier::when_used_as_spec(spec_tag)]
    pub fn tag(self) -> (v: u8)
        ensures
            v == self.spec_tag(),
    {
        match self {
            LogEntryType::XBEGIN => 1,
            LogEntryType::XCOMMIT => 2,
            LogEntryType::XABORT => 3,
            LogEntryType::UPDATE => 4,
            LogEntryType::CPHASE => 5,
        }
    }
}

impl TryFrom<u8> for LogEntryType {
    type Error = ();

    fn try_from(v: u8) -> (r: Result<Self, Self::Error>) {
        if v == 1 {
            Ok(LogEntryType::XBEGIN)
        } else if v == 2 {
            Ok(LogEntryType::XCOMMIT)
        } else if v == 3 {
            Ok(LogEntryType::XABORT)
        } else if v == 4 {
            Ok(LogEntryType::UPDATE)
        } else if v == 5 {
            Ok(LogEntryType::CPHASE)
        } else {
            Err(())
        }
    }
}

impl TryFromSpecImpl<u8> for LogEntryType {
    open spec fn obeys_try_from_spec() -> bool {
        true
    }

    open spec fn try_from_spec(v: u8) -> Result<Self, Self::Error> {
        LogEntryType::from_tag(v)
    }
}

/// An entry of the write-ahead log.
#[derive(Debug, PartialEq)]
pub enum LogEntry {
    XBegin { xid: Xid },
    XCommit { xid: Xid },
    XAbort { xid: Xid },
    /// A write of `key`: `value` is `None` for a delete, and
    /// `previous_value` is what an undo restores.
    Update { xid: Xid, key: Vec<u8>, value: Option<Vec<u8>>, previous_value: Option<Vec<u8>> },
    /// A checkpoint has entered the phase.
    CPhase(CheckpointPhase),
}

/// A log entry as a mathematical value.
pub enum LogEntryView {
    XBegin { xid: Xid },
    XCommit { xid: Xid },
    XAbort { xid: Xid },
    Update { xid: Xid, key: Seq<u8>, value: Option<Seq<u8>>, previous_value: Option<Seq<u8>> },
    CPhase(CheckpointPhase),
}

impl View for LogEntry {
    type V = LogEntryView;

    open spec fn view(&self) -> LogEntryView {
        match *self {
            LogEntry::XBegin { xid } => LogEntryView::XBegin { xid },
            LogEntry::XCommit { xid } => LogEntryView::XCommit { xid },
            LogEntry::XAbort { xid } => LogEntryView::XAbort { xid },
            LogEntry::Update { xid, key, value, previous_value } => LogEntryView::Update {
                xid,
                key: key@,
                value: optional_view(value),
                previous_value: optional_view(previous_value),
            },
            LogEntry::CPhase(phase) => LogEntryView::CPhase(phase),
        }
    }
}

/// The encoding of an optional byte string: a presence byte, 1 or 0, and
/// behind a 1 the byte string.
pub open spec fn optional_bytes(value: Option<Seq<u8>>) -> Seq<u8> {
    match value {
        Some(data) => seq![1u8] + u8_vec_bytes(data),
        None => seq![0u8],
    }
}

/// The encoding of a log entry: its type tag, then its fields in order.
pub open spec fn entry_bytes(entry: LogEntryView) -> Seq<u8> {
    match entry {
        LogEntryView::XBegin { xid } => seq![LogEntryType::XBEGIN.tag()] + be_bytes(xid),
        LogEntryView::XCommit { xid } => seq![LogEntryType::XCOMMIT.tag()] + be_bytes(xid),
        LogEntryView::XAbort { xid } => seq![LogEntryType::XABORT.tag()] + be_bytes(xid),
        LogEntryView::Update { xid, key, value, previous_value } => seq![
            LogEntryType::UPDATE.tag(),
        ] + be_bytes(xid) + u8_vec_bytes(key) + optional_bytes(value) + optional_bytes(
            previous_value,
        ),
        LogEntryView::CPhase(phase) => seq![LogEntryType::CPHASE.tag(), phase.ordinal()],
    }
}

/// What reading an optional byte string of `s` at `pos` yields: the byte
/// string where the presence byte is 1, nothing where it is anything else.
pub open spec fn decoded_optional(s: Seq<u8>, pos: int) -> Result<(Option<Seq<u8>>, int), Error> {
    match decoded_u8(s, pos) {
        Ok((present, next)) => if present == 1 {
            match decoded_u8_vec(s, next) {
                Ok((data, end)) => Ok((Some(data), end)),
                Err(e) => Err(e),
            }
        } else {
            Ok((None, next))
        },
        Err(e) => Err(e),
    }
}

/// What reading the fields of an update of `s` at `pos` yields.
pub open spec fn decoded_update(s: Seq<u8>, pos: int) -> Result<(LogEntryView, int), Error> {
    match decoded_u64(s, pos) {
        Ok((xid, at_key)) => match decoded_u8_vec(s, at_key) {
            Ok((key, at_value)) => match decoded_optional(s, at_value) {
                Ok((value, at_previous)) => match decoded_optional(s, at_previous) {
                    Ok((previous_value, end)) => Ok(
                        (LogEntryView::Update { xid, key, value, previous_value }, end),
                    ),
                    Err(e) => Err(e),
                },
                Err(e) => Err(e),
            },
            Err(e) => Err(e),
        },
        Err(e) => Err(e),
    }
}

/// What reading a transaction id of `s` at `pos` yields, as the entry that
/// `make` builds of it.
pub open spec fn decoded_xid_entry(
    s: Seq<u8>,
    pos: int,
    make: spec_fn(Xid) -> LogEntryView,
) -> Result<(LogEntryView, int), Error> {
    match decoded_u64(s, pos) {
        Ok((xid, end)) => Ok((make(xid), end)),
        Err(e) => Err(e),
    }
}

/// What reading a phase of `s` at `pos` yields.
pub open spec fn decoded_phase(s: Seq<u8>, pos: int) -> Result<(LogEntryView, int), Error> {
    match decoded_u8(s, pos) {
        Ok((ordinal, end)) => match CheckpointPhase::from_ordinal(ordinal) {
            Ok(phase) => Ok((LogEntryView::CPhase(phase), end)),
            Err(e) => Err(e),
        },
        Err(e) => Err(e),
    }
}

/// What reading a log entry of `s` at `pos` yields: the entry and the
/// position behind it, or the first error met.
pub open spec fn decoded_entry(s: Seq<u8>, pos: int) -> Result<(LogEntryView, int), Error> {
    match decoded_u8(s, pos) {
        Ok((tag, next)) => match LogEntryType::from_tag(tag) {
            Ok(LogEntryType::XBEGIN) => decoded_xid_entry(
                s,
                next,
                |xid: Xid| LogEntryView::XBegin { xid },
            ),
            Ok(LogEntryType::XCOMMIT) => decoded_xid_entry(
                s,
                next,
                |xid: Xid| LogEntryView::XCommit { xid },
            ),
            Ok(LogEntryType::XABORT) => decoded_xid_entry(
                s,
                next,
                |xid: Xid| LogEntryView::XAbort { xid },
            ),
            Ok(LogEntryType::UPDATE) => decoded_update(s, next),
            Ok(LogEntryType::CPHASE) => decoded_phase(s, next),
            Err(_) => Err(Error { kind: ErrorKind::UnknownEntryType, detail: tag as u64 }),
        },
        Err(e) => Err(e),
    }
}

/// Appends an optional byte string: a presence byte, and the byte string
/// where there is one.
fn serialize_optional(res: &mut Vec<u8>, value: &Option<Vec<u8>>)
    ensures
        final(res)@ == old(res)@ + optional_bytes(optional_view(*value)),
{
    match value {
        Some(data) => {
            write_u8(res, 1);
            serialize_u8_vec(res, data.as_slice());
            assert(res@ == old(res)@ + (seq![1u8] + u8_vec_bytes(data@)));
        },
        None => {
            write_u8(res, 0);
            assert(res@ == old(res)@ + seq![0u8]);
        },
    }
}

/// Reads an optional byte string.
fn deserialize_optional(rdr: &mut Cursor) -> (r: Result<Option<Vec<u8>>, Error>)
    ensures
        final(rdr).bytes() == old(rdr).bytes(),
        match decoded_optional(old(rdr).bytes(), old(rdr).position()) {
            Ok((value, next)) => {
                &&& r is Ok && optional_view(r.unwrap()) == value
                &&& final(rdr).position() == next
            },
            Err(e) => r == Err::<Option<Vec<u8>>, Error>(e),
        },
{
    let present = match rdr.read_u8() {
        Ok(b) => b,
        Err(e) => {
            return Err(e);
        },
    };
    if present == 1 {
        match deserialize_u8_vec(rdr) {
            Ok(data) => Ok(Some(data)),
            Err(e) => Err(e),
        }
    } else {
        Ok(None)
    }
}

/// Reads a log entry. On an error the reader may have moved.
fn read_entry(rdr: &mut Cursor) -> (r: Result<LogEntry, Error>)
    ensures
        final(rdr).bytes() == old(rdr).bytes(),
        match decoded_entry(old(rdr).bytes(), old(rdr).position()) {
            Ok((entry, next)) => r is Ok && r.unwrap()@ == entry && final(rdr).position() == next,
            Err(e) => r == Err::<LogEntry, Error>(e),
        },
{
    let tag = match rdr.read_u8() {
        Ok(b) => b,
        Err(e) => {
            return Err(e);
        },
    };
    let lr_type = match LogEntryType::try_from(tag) {
        Ok(t) => t,
        Err(_) => {
            return Err(Error { kind: ErrorKind::UnknownEntryType, detail: tag as u64 });
        },
    };
    match lr_type {
        LogEntryType::XBEGIN => {
            match deserialize_xid(rdr) {
                Ok(xid) => Ok(LogEntry::XBegin { xid }),
                Err(e) => Err(e),
            }
        },
        LogEntryType::XCOMMIT => {
            match deserialize_xid(rdr) {
                Ok(xid) => Ok(LogEntry::XCommit { xid }),
                Err(e) => Err(e),
            }
        },
        LogEntryType::XABORT => {
            match deserialize_xid(rdr) {
                Ok(xid) => Ok(LogEntry::XAbort { xid }),
                Err(e) => Err(e),
            }
        },
        LogEntryType::UPDATE => {
            let xid = match deserialize_xid(rdr) {
                Ok(xid) => xid,
                Err(e) => {
                    return Err(e);
                },
            };
            let key = match deserialize_u8_vec(rdr) {
                Ok(key) => key,
                Err(e) => {
                    return Err(e);
                },
            };
            let value = match deserialize_optional(rdr) {
                Ok(value) => value,
                Err(e) => {
                    return Err(e);
                },
            };
            let previous_value = match deserialize_optional(rdr) {
                Ok(value) => value,
                Err(e) => {
                    return Err(e);
                },
            };
            Ok(LogEntry::Update { xid, key, value, previous_value })
        },
        LogEntryType::CPHASE => {
            let phase_u8 = match rdr.read_u8() {
                Ok(b) => b,
                Err(e) => {
                    return Err(e);
                },
            };
            match CheckpointPhase::try_from(phase_u8) {
                Ok(phase) => Ok(LogEntry::CPhase(phase)),
                Err(e) => Err(e),
            }
        },
    }
}

impl LogEntry {
    /// Reads the entry that `bytes` starts with; what follows it is
    /// ignored.
    pub fn deserialize(bytes: &[u8]) -> (r: Result<LogEntry, Error>)
        ensures
            match decoded_entry(bytes@, 0) {
                Ok((entry, _)) => r is Ok && r.unwrap()@ == entry,
                Err(e) => r == Err::<LogEntry, Error>(e),
            },
    {
        let mut rdr = Cursor::new(bytes);
        read_entry(&mut rdr)
    }
}

impl Deserialize for LogEntry {
    open spec fn decoding(s: Seq<u8>, pos: int) -> Result<(LogEntryView, int), Error> {
        decoded_entry(s, pos)
    }

    fn deserialize(&mut self, rdr: &mut Cursor) -> (r: Result<(), Error>) {
        let start = rdr.offset();
        match read_entry(rdr) {
            Ok(entry) => {
                *self = entry;
                Ok(())
            },
            Err(e) => {
                rdr.set_position(start);
                Err(e)
            },
        }
    }
}

impl Serialize for LogEntry {
    open spec fn encoding(&self) -> Seq<u8> {
        entry_bytes(self@)
    }

    fn serialize(&self) -> (res: Vec<u8>) {
        let mut res: Vec<u8> = Vec::new();
        match self {
            LogEntry::XBegin { xid } => {
                write_u8(&mut res, LogEntryType::XBEGIN.tag());
                serialize_xid(&mut res, xid);
            },
            LogEntry::XCommit { xid } => {
                write_u8(&mut res, LogEntryType::XCOMMIT.tag());
                serialize_xid(&mut res, xid);
            },
            LogEntry::XAbort { xid } => {
                write_u8(&mut res, LogEntryType::XABORT.tag());
                serialize_xid(&mut res, xid);
            },
            LogEntry::Update { xid, key, value, previous_value } => {
                write_u8(&mut res, LogEntryType::UPDATE.tag());
                serialize_xid(&mut res, xid);
                serialize_u8_vec(&mut res, key.as_slice());
                serialize_optional(&mut res, value);
                serialize_optional(&mut res, previous_value);
            },
            LogEntry::CPhase(phase) => {
                write_u8(&mut res, LogEntryType::CPHASE.tag());
                write_u8(&mut res, phase.ordinal());
            },
        }
        assert(res@ == entry_bytes(self@));
        res
    }
}

impl LogEntryView {
    /// Whether the entry can be held in memory: its byte strings are no
    /// longer than the address space.
    pub open spec fn representable(self) -> bool {
        match self {
            LogEntryView::Update { key, value, previous_value, .. } => {
                &&& key.len() <= usize::MAX
                &&& value matches Some(data) ==> data.len() <= usize::MAX
                &&& previous_value matches Some(data) ==> data.len() <= usize::MAX
            },
            _ => true,
        }
    }
}

/// The encoding of an entry starts with its type tag, so it is not empty.
pub proof fn lemma_entry_bytes_tag(entry: LogEntryView)
    ensures
        entry_bytes(entry).len() >= 1,
        1 <= entry_bytes(entry)[0] <= 5,
{
}

/// An optional byte string is read back where its encoding stands.
pub proof fn lemma_decoded_optional(s: Seq<u8>, pos: int, value: Option<Seq<u8>>)
    requires
        occurs_at(s, pos, optional_bytes(value)),
        value matches Some(data) ==> data.len() <= usize::MAX,
    ensures
        decoded_optional(s, pos) == Ok::<(Option<Seq<u8>>, int), Error>(
            (value, pos + optional_bytes(value).len()),
        ),
{
    match value {
        Some(data) => {
            lemma_occurs_at_split(s, pos, seq![1u8], u8_vec_bytes(data));
            assert(s[pos] == s.subrange(pos, pos + 1)[0]);
            lemma_decoded_u8_vec(s, pos + 1, data);
        },
        None => {
            assert(s[pos] == s.subrange(pos, pos + 1)[0]);
        },
    }
}

/// The fields of an update are read back where their encodings stand in
/// order.
#[verifier::rlimit(40)]
proof fn lemma_decoded_update(
    s: Seq<u8>,
    pos: int,
    xid: Xid,
    key: Seq<u8>,
    value: Option<Seq<u8>>,
    previous_value: Option<Seq<u8>>,
)
    requires
        occurs_at(
            s,
            pos,
            be_bytes(xid) + (u8_vec_bytes(key) + (optional_bytes(value) + optional_bytes(
                previous_value,
            ))),
        ),
        key.len() <= usize::MAX,
        value matches Some(data) ==> data.len() <= usize::MAX,
        previous_value matches Some(data) ==> data.len() <= usize::MAX,
    ensures
        decoded_update(s, pos) == Ok::<(LogEntryView, int), Error>(
            (
                LogEntryView::Update { xid, key, value, previous_value },
                pos + be_bytes(xid).len() + u8_vec_bytes(key).len() + optional_bytes(value).len()
                    + optional_bytes(previous_value).len(),
            ),
        ),
{
    let x = be_bytes(xid);
    let k = u8_vec_bytes(key);
    let v = optional_bytes(value);
    let p = optional_bytes(previous_value);
    lemma_occurs_at_split(s, pos, x, k + (v + p));
    lemma_decoded_u64(s, pos, xid);
    let at_key = pos + x.len();
    lemma_occurs_at_split(s, at_key, k, v + p);
    lemma_decoded_u8_vec(s, at_key, key);
    let at_value = at_key + k.len();
    lemma_occurs_at_split(s, at_value, v, p);
    lemma_decoded_optional(s, at_value, value);
    let at_previous = at_value + v.len();
    lemma_decoded_optional(s, at_previous, previous_value);
}

/// Decoding inverts encoding: where the encoding of an entry stands in a
/// byte string, reading at its start gives the entry back and ends behind
/// its last byte.
#[verifier::rlimit(40)]
pub proof fn lemma_decoded_entry(s: Seq<u8>, pos: int, entry: LogEntryView)
    requires
        occurs_at(s, pos, entry_bytes(entry)),
        entry.representable(),
    ensures
        decoded_entry(s, pos) == Ok::<(LogEntryView, int), Error>(
            (entry, pos + entry_bytes(entry).len()),
        ),
{
    let bytes = entry_bytes(entry);
    let tag = bytes[0];
    assert(s[pos] == s.subrange(pos, pos + bytes.len())[0]);
    match entry {
        LogEntryView::XBegin { xid } => {
            lemma_occurs_at_split(s, pos, seq![tag], be_bytes(xid));
            lemma_decoded_u64(s, pos + 1, xid);
        },
        LogEntryView::XCommit { xid } => {
            lemma_occurs_at_split(s, pos, seq![tag], be_bytes(xid));
            lemma_decoded_u64(s, pos + 1, xid);
        },
        LogEntryView::XAbort { xid } => {
            lemma_occurs_at_split(s, pos, seq![tag], be_bytes(xid));
            lemma_decoded_u64(s, pos + 1, xid);
        },
        LogEntryView::Update { xid, key, value, previous_value } => {
            let fields = be_bytes(xid) + (u8_vec_bytes(key) + (optional_bytes(value)
                + optional_bytes(previous_value)));
            assert(bytes =~= seq![tag] + fields);
            lemma_occurs_at_split(s, pos, seq![tag], fields);
            lemma_decoded_update(s, pos + 1, xid, key, value, previous_value);
        },
        LogEntryView::CPhase(phase) => {
            assert(s[pos + 1] == s.subrange(pos, pos + bytes.len())[1]);
        },
    }
}

/// The byte strings of an entry in memory are no longer than the address
/// space.
pub proof fn lemma_representable(entry: LogEntry)
    ensures
        entry@.representable(),
{
    match entry {
        LogEntry::Update { xid, key, value, previous_value } => {
            assert(key@.len() == key.len());
            match value {
                Some(data) => {
                    assert(data@.len() == data.len());
                },
                None => {},
            }
            match previous_value {
                Some(data) => {
                    assert(data@.len() == data.len());
                },
                None => {},
            }
        },
        _ => {},
    }
}

/// The round trip of the log: every entry that can be built is read back
/// from its own encoding, all of which is consumed.
pub proof fn lemma_round_trip(entry: LogEntry)
    ensures
        decoded_entry(entry.encoding(), 0) == Ok::<(LogEntryView, int), Error>(
            (entry@, entry.encoding().len() as int),
        ),
{
    lemma_representable(entry);
    let bytes = entry_bytes(entry@);
    assert(bytes.subrange(0, bytes.len() as int) =~= bytes);
    lemma_decoded_entry(bytes, 0, entry@);
}

/// An operation on the store as a client states it.
#[derive(Debug, PartialEq)]
pub enum LogicalOperation {
    Put { key: String, value: String },
    Delete { key: String },
}

} // verus!
