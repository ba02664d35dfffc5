//! The framing of the log: each entry is written as a record, its
//! encoding behind the length of that encoding.
//!
//! Log format
//!
//! ```text
//!  ----------------------------------------------------------
//! | log_size_1 | log_data_1 | ... | log_size_N | log_data_N |
//!  ----------------------------------------------------------
//! ```
//!
//! The size in front tells a reader where the next record starts. Whenever
//! there is a choice between big-endian and little-endian, the log is
//! big-endian.
//!
//! Neither the writer nor the reader touches a file: the writer collects
//! the bytes that its owner appends to the file and syncs, and the reader
//! walks over bytes that its owner has read from it.

use vstd::prelude::*;
use vstd::slice::slice_subrange;

use crate::log::logentry::{
    decoded_entry, entry_bytes, lemma_decoded_entry, lemma_entry_bytes_tag, LogEntry,
    LogEntryView,
};
use crate::log::serde::{
    be_bytes, decoded_usize, deserialize_usize, lemma_be_value_of_bytes, lemma_decoded_u64,
    lemma_occurs_at_split, occurs_at, serialize_u8_vec, u8_vec_bytes, Cursor, Serialize,
};
use crate::types::{Error, ErrorKind};

verus! {

/// The record of an entry: the entry's encoding behind its length.
pub open spec fn record_bytes(entry: LogEntryView) -> Seq<u8> {
    u8_vec_bytes(entry_bytes(entry))
}

/// A log that holds the records of `entries` in order.
pub open spec fn log_bytes(entries: Seq<LogEntryView>) -> Seq<u8>
    decreases entries.len(),
{
    if entries.len() == 0 {
        Seq::empty()
    } else {
        log_bytes(entries.drop_last()) + record_bytes(entries.last())
    }
}

/// What reading the record of `log` at `pos` yields: the entry and the
/// position of the next record; nothing where the log ends at `pos`, ends
/// inside the record, or holds an empty record there; an error where the
/// length does not fit the address space or the record does not start with
/// an entry.
pub open spec fn next_record(log: Seq<u8>, pos: int) -> Result<Option<(LogEntryView, int)>, Error> {
    match decoded_usize(log, pos) {
        Ok((size, body)) => if size == 0 || body + size > log.len() {
            Ok(None)
        } else {
            match decoded_entry(log.subrange(body, body + size), 0) {
                Ok((entry, _)) => Ok(Some((entry, body + size))),
                Err(e) => Err(e),
            }
        },
        Err(e) => if e.kind == ErrorKind::UnexpectedEnd {
            Ok(None)
        } else {
            Err(e)
        },
    }
}

/// Whether an entry and its record can be held in memory.
pub open spec fn storable(entry: LogEntryView) -> bool {
    entry.representable() && entry_bytes(entry).len() <= usize::MAX
}

/// Whether `tail` is the start of `whole` and shorter than it.
pub open spec fn cut_short(whole: Seq<u8>, tail: Seq<u8>) -> bool {
    tail.len() < whole.len() && whole.subrange(0, tail.len() as int) == tail
}

/// Where the record of an entry stands in a log, reading there gives the
/// entry and ends behind the record.
#[verifier::rlimit(40)]
pub proof fn lemma_next_record(log: Seq<u8>, pos: int, entry: LogEntryView)
    requires
        occurs_at(log, pos, record_bytes(entry)),
        storable(entry),
    ensures
        next_record(log, pos) == Ok::<Option<(LogEntryView, int)>, Error>(
            Some((entry, pos + record_bytes(entry).len())),
        ),
{
    let body = entry_bytes(entry);
    let size = body.len() as u64;
    let end = pos + 8 + body.len();
    assert(body.len() >= 1) by {
        lemma_entry_bytes_tag(entry);
    }
    assert(decoded_usize(log, pos) == Ok::<(usize, int), Error>((size as usize, pos + 8))
        && occurs_at(log, pos + 8, body)) by {
        lemma_occurs_at_split(log, pos, be_bytes(size), body);
        lemma_decoded_u64(log, pos, size);
    }
    let framed = log.subrange(pos + 8, end);
    assert(decoded_entry(framed, 0) == Ok::<(LogEntryView, int), Error>(
        (entry, body.len() as int),
    )) by {
        assert(framed.subrange(0, body.len() as int) =~= framed);
        lemma_decoded_entry(framed, 0, entry);
    }
    assert(record_bytes(entry).len() == 8 + body.len()) by {
        lemma_be_value_of_bytes(size);
    }
}

/// Where a log ends inside the record of an entry, reading at the start
/// of that record finds the end of the log and no error.
pub proof fn lemma_truncated_record(log: Seq<u8>, pos: int, entry: LogEntryView)
    requires
        0 <= pos <= log.len(),
        storable(entry),
        cut_short(record_bytes(entry), log.subrange(pos, log.len() as int)),
    ensures
        next_record(log, pos) == Ok::<Option<(LogEntryView, int)>, Error>(None),
{
    let body = entry_bytes(entry);
    let size = body.len() as u64;
    let record = record_bytes(entry);
    let tail = log.subrange(pos, log.len() as int);
    lemma_be_value_of_bytes(size);
    if pos + 8 <= log.len() {
        assert(log.subrange(pos, pos + 8) =~= be_bytes(size)) by {
            assert forall|i: int| 0 <= i < 8 implies log[pos + i] == be_bytes(size)[i] by {
                assert(tail[i] == record.subrange(0, tail.len() as int)[i]);
            }
        }
        lemma_decoded_u64(log, pos, size);
    }
}

/// The first `count` records of a log are the log of the first `count`
/// entries.
pub proof fn lemma_log_prefix(entries: Seq<LogEntryView>, count: int)
    requires
        0 <= count <= entries.len(),
    ensures
        log_bytes(entries.take(count)).len() <= log_bytes(entries).len(),
        log_bytes(entries).subrange(0, log_bytes(entries.take(count)).len() as int) == log_bytes(
            entries.take(count),
        ),
    decreases entries.len() - count,
{
    let whole = log_bytes(entries);
    if count == entries.len() {
        assert(entries.take(count) =~= entries);
        assert(whole.subrange(0, whole.len() as int) =~= whole);
    } else {
        lemma_log_prefix(entries, count + 1);
        let longer = entries.take(count + 1);
        assert(longer.drop_last() =~= entries.take(count));
        let shorter = log_bytes(entries.take(count));
        assert(log_bytes(longer) == shorter + record_bytes(longer.last()));
        assert(whole.subrange(0, shorter.len() as int) =~= shorter) by {
            assert forall|i: int| 0 <= i < shorter.len() implies whole[i] == shorter[i] by {
                assert(whole.subrange(0, log_bytes(longer).len() as int)[i] == log_bytes(
                    longer,
                )[i]);
            }
        }
    }
}

/// Reading a log record by record gives its entries in order: at the end
/// of the first `index` records stands entry `index`, whatever follows
/// the log.
pub proof fn lemma_log_record(entries: Seq<LogEntryView>, index: int, tail: Seq<u8>)
    requires
        0 <= index < entries.len(),
        forall|j: int| 0 <= j < entries.len() ==> storable(#[trigger] entries[j]),
    ensures
        next_record(log_bytes(entries) + tail, log_bytes(entries.take(index)).len() as int) == Ok::<
            Option<(LogEntryView, int)>,
            Error,
        >(Some((entries[index], log_bytes(entries.take(index + 1)).len() as int))),
{
    let whole = log_bytes(entries);
    let before = log_bytes(entries.take(index));
    let record = record_bytes(entries[index]);
    let through = entries.take(index + 1);
    lemma_log_prefix(entries, index + 1);
    assert(through.drop_last() =~= entries.take(index));
    assert(log_bytes(through) == before + record);
    let log = whole + tail;
    assert(log.subrange(before.len() as int, (before.len() + record.len()) as int) =~= record) by {
        assert forall|i: int| 0 <= i < record.len() implies log[before.len() + i] == record[i] by {
            assert(whole.subrange(0, log_bytes(through).len() as int)[before.len() + i]
                == log_bytes(through)[before.len() + i]);
        }
    }
    lemma_next_record(log, before.len() as int, entries[index]);
}

/// A log tolerates a record that was not written out in full: behind the
/// records of `entries`, a start of the record of `next` reads as the end
/// of the log.
pub proof fn lemma_log_end(entries: Seq<LogEntryView>, next: LogEntryView, tail: Seq<u8>)
    requires
        storable(next),
        cut_short(record_bytes(next), tail),
    ensures
        next_record(log_bytes(entries) + tail, log_bytes(entries).len() as int) == Ok::<
            Option<(LogEntryView, int)>,
            Error,
        >(None),
{
    let whole = log_bytes(entries);
    let log = whole + tail;
    assert(log.subrange(whole.len() as int, log.len() as int) =~= tail);
    lemma_truncated_record(log, whole.len() as int, next);
}

/// Collects the records of a log until they are handed over to be made
/// durable.
pub struct LogWriter {
    pending: Vec<u8>,
}

impl View for LogWriter {
    type V = Seq<u8>;

    /// The bytes written since the last flush.
    closed spec fn view(&self) -> Seq<u8> {
        self.pending@
    }
}

impl LogWriter {
    /// A writer that holds nothing.
    pub fn new() -> (writer: Self)
        ensures
            writer@ == Seq::<u8>::empty(),
    {
        LogWriter { pending: Vec::new() }
    }

    /// Appends the record of `log`.
    pub fn write(&mut self, log: &LogEntry)
        ensures
            final(self)@ == old(self)@ + record_bytes(log@),
    {
        let buf = log.serialize();
        serialize_u8_vec(&mut self.pending, buf.as_slice());
    }

    /// Hands over what was written since the last flush, for the caller
    /// to append to the log file and sync.
    pub fn flush(&mut self) -> (bytes: Vec<u8>)
        ensures
            bytes@ == old(self)@,
            final(self)@ == Seq::<u8>::empty(),
    {
        let mut bytes: Vec<u8> = Vec::new();
        bytes.append(&mut self.pending);
        bytes
    }
}

/// Reads the records of a log one after another.
pub struct LogReader {
    data: Vec<u8>,
    pos: usize,
}

impl LogReader {
    #[verifier::type_invariant]
    spec fn in_bounds(self) -> bool {
        self.pos <= self.data@.len()
    }

    /// The bytes of the log.
    pub closed spec fn bytes(self) -> Seq<u8> {
        self.data@
    }

    /// The position of the next record.
    pub closed spec fn position(self) -> int {
        self.pos as int
    }

    /// A reader at the start of the log `data`.
    pub fn new(data: Vec<u8>) -> (reader: Self)
        ensures
            reader.bytes() == data@,
            reader.position() == 0,
    {
        LogReader { data, pos: 0 }
    }

    /// Reads the next log record, returning `None` where the log ends: at
    /// its last byte, inside a record that was not written out in full, or
    /// at an empty record. Only after an entry has the reader moved on.
    pub fn read(&mut self) -> (r: Result<Option<LogEntry>, Error>)
        ensures
            final(self).bytes() == old(self).bytes(),
            match next_record(old(self).bytes(), old(self).position()) {
                Ok(Some((entry, next))) => {
                    &&& r matches Ok(Some(e)) && e@ == entry
                    &&& final(self).position() == next
                },
                Ok(None) => r matches Ok(None) && final(self).position() == old(self).position(),
                Err(e) => {
                    &&& r == Err::<Option<LogEntry>, Error>(e)
                    &&& final(self).position() == old(self).position()
                },
            },
    {
        proof {
            use_type_invariant(&*self);
        }
        let mut rdr = Cursor::new(self.data.as_slice());
        rdr.set_position(self.pos);
        let size = match deserialize_usize(&mut rdr) {
            Ok(n) => n,
            Err(e) => {
                return match e.kind {
                    ErrorKind::UnexpectedEnd => Ok(None),
                    _ => Err(e),
                };
            },
        };
        let body = rdr.offset();
        if size == 0 || self.data.len() - body < size {
            return Ok(None);
        }
        let struct_buf = slice_subrange(self.data.as_slice(), body, body + size);
        match LogEntry::deserialize(struct_buf) {
            Ok(entry) => {
                self.pos = body + size;
                Ok(Some(entry))
            },
            Err(e) => Err(e),
        }
    }
}

} // verus!
