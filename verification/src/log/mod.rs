//! The write-ahead log: the encoding of its entries, the framing of its
//! records, and the manager that decides when they are handed over to be
//! made durable.

use vstd::prelude::*;

use crate::log::io::{record_bytes, LogWriter};
use crate::log::logentry::LogEntry;

pub mod io;
pub mod logentry;
pub mod serde;

verus! {

/// The number of records that make a batch where records are handed over
/// in batches.
pub const BATCH_SIZE: u32 = 32;

/// The state of a log manager as a mathematical value.
pub struct LogManagerView {
    /// The records appended and not yet handed over.
    pub pending: Seq<u8>,
    /// The number of those records.
    pub written: nat,
    /// The number of records that make a batch.
    pub batch_size: nat,
}

/// Collects log records and hands them over in batches, for the caller to
/// append to the log file and sync. With a batch of one record, each
/// record is handed over as it is appended; with a batch of `n` records,
/// at most the last `n` appended are not yet durable.
pub struct LogManager {
    writer: LogWriter,
    written: u32,
    batch_size: u32,
}

impl View for LogManager {
    type V = LogManagerView;

    closed spec fn view(&self) -> LogManagerView {
        LogManagerView {
            pending: self.writer@,
            written: self.written as nat,
            batch_size: self.batch_size as nat,
        }
    }
}

impl LogManager {
    /// A manager that hands each record over as it is appended.
    pub fn new() -> (manager: Self)
        ensures
            manager@ == (LogManagerView { pending: Seq::empty(), written: 0, batch_size: 1 }),
    {
        Self::with_batch_size(1)
    }

    /// A manager that hands records over in batches of `batch_size`; with
    /// 0 as with 1, each record as it is appended.
    pub fn with_batch_size(batch_size: u32) -> (manager: Self)
        ensures
            manager@ == (LogManagerView {
                pending: Seq::empty(),
                written: 0,
                batch_size: batch_size as nat,
            }),
    {
        Self { writer: LogWriter::new(), written: 0, batch_size }
    }

    /// Appends the record of `log`. Where it fills a batch, the batch is
    /// handed back, for the caller to append to the log file and sync.
    pub fn append_log(&mut self, log: LogEntry) -> (batch: Option<Vec<u8>>)
        ensures
            final(self)@.batch_size == old(self)@.batch_size,
            old(self)@.written + 1 >= old(self)@.batch_size ==> {
                &&& batch matches Some(bytes)
                &&& bytes@ == old(self)@.pending + record_bytes(log@)
                &&& final(self)@.pending == Seq::<u8>::empty()
                &&& final(self)@.written == 0
            },
            old(self)@.written + 1 < old(self)@.batch_size ==> {
                &&& batch is None
                &&& final(self)@.pending == old(self)@.pending + record_bytes(log@)
                &&& final(self)@.written == old(self)@.written + 1
            },
    {
        self.writer.write(&log);
        if self.written == u32::MAX || self.written + 1 >= self.batch_size {
            self.written = 0;
            Some(self.writer.flush())
        } else {
            self.written = self.written + 1;
            None
        }
    }

    /// Hands back the records appended since the last batch, for the
    /// caller to append to the log file and sync.
    pub fn flush(&mut self) -> (bytes: Vec<u8>)
        ensures
            bytes@ == old(self)@.pending,
            final(self)@ == (LogManagerView { pending: Seq::empty(), written: 0, ..old(self)@ }),
    {
        self.written = 0;
        self.writer.flush()
    }
}

} // verus!
