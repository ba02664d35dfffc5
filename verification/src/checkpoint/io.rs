//! The snapshot that a checkpoint writes: key and value pairs, one after
//! another, each byte string behind its length.
//!
//! The writer keeps the image of the snapshot file in memory, together
//! with the length of the part that counts as synced. Its owner copies the
//! image to the file and syncs it.

use vstd::prelude::*;

use crate::log::serde::{serialize_u8_vec, u8_vec_bytes};

verus! {

/// The number of records after which the writer syncs, unless it is given
/// another.
pub const BATCH_SIZE: u64 = 512;

/// The record of a key and its value.
pub open spec fn pair_bytes(key: Seq<u8>, value: Seq<u8>) -> Seq<u8> {
    u8_vec_bytes(key) + u8_vec_bytes(value)
}

/// The state of a snapshot writer as a mathematical value.
pub struct CheckpointWriterView {
    /// Everything written so far.
    pub data: Seq<u8>,
    /// The length of the start of `data` that has been synced.
    pub synced: nat,
    /// The number of records written since the last sync that a full
    /// batch caused.
    pub written: nat,
    /// The number of records that make a batch.
    pub batch_size: nat,
}

impl CheckpointWriterView {
    /// The writer after the record of `key` and `value` has been
    /// appended: a record that fills a batch syncs everything.
    pub open spec fn append(self, key: Seq<u8>, value: Seq<u8>) -> CheckpointWriterView {
        let data = self.data + pair_bytes(key, value);
        if self.written + 1 >= self.batch_size {
            CheckpointWriterView { data, synced: data.len(), written: 0, ..self }
        } else {
            CheckpointWriterView { data, written: self.written + 1, ..self }
        }
    }

    /// The writer after everything written has been synced.
    pub open spec fn flush(self) -> CheckpointWriterView {
        CheckpointWriterView { synced: self.data.len(), ..self }
    }
}

/// Writes the records of a snapshot and syncs them in batches.
pub struct CheckpointWriter {
    data: Vec<u8>,
    synced: usize,
    written: u64,
    batch_size: u64,
}

impl View for CheckpointWriter {
    type V = CheckpointWriterView;

    closed spec fn view(&self) -> CheckpointWriterView {
        CheckpointWriterView {
            data: self.data@,
            synced: self.synced as nat,
            written: self.written as nat,
            batch_size: self.batch_size as nat,
        }
    }
}

impl CheckpointWriter {
    /// A writer of an empty snapshot that syncs every `BATCH_SIZE`
    /// records.
    pub fn new() -> (writer: Self)
        ensures
            writer@ == (CheckpointWriterView {
                data: Seq::empty(),
                synced: 0,
                written: 0,
                batch_size: BATCH_SIZE as nat,
            }),
    {
        Self::with_batch_size(BATCH_SIZE)
    }

    /// A writer of an empty snapshot that syncs every `batch_size`
    /// records; with 0 as with 1, after each record.
    pub fn with_batch_size(batch_size: u64) -> (writer: Self)
        ensures
            writer@ == (CheckpointWriterView {
                data: Seq::empty(),
                synced: 0,
                written: 0,
                batch_size: batch_size as nat,
            }),
    {
        CheckpointWriter { data: Vec::new(), synced: 0, written: 0, batch_size }
    }

    /// Appends the record of `key` and `value`, and syncs where it fills
    /// a batch.
    pub fn append(&mut self, key: &[u8], value: &[u8])
        ensures
            final(self)@ == old(self)@.append(key@, value@),
    {
        serialize_u8_vec(&mut self.data, key);
        serialize_u8_vec(&mut self.data, value);
        assert(self.data@ == old(self).data@ + pair_bytes(key@, value@));
        if self.written == u64::MAX || self.written + 1 >= self.batch_size {
            self.synced = self.data.len();
            self.written = 0;
        } else {
            self.written = self.written + 1;
        }
    }

    /// Syncs everything written so far.
    pub fn flush(&mut self)
        ensures
            final(self)@ == old(self)@.flush(),
    {
        self.synced = self.data.len();
    }

    /// Everything written so far.
    pub fn bytes(&self) -> (data: &[u8])
        ensures
            data@ == self@.data,
    {
        self.data.as_slice()
    }

    /// Everything written so far; the writer is used up.
    pub fn into_bytes(self) -> (data: Vec<u8>)
        ensures
            data@ == self@.data,
    {
        self.data
    }

    /// The length of the start of the snapshot that has been synced.
    pub fn synced_len(&self) -> (synced: usize)
        ensures
            synced == self@.synced,
    {
        self.synced
    }
}

} // verus!
