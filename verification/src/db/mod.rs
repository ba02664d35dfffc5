//! DB is the main interface to ThorKV.
//!
//! There are two storages, one for the live version and one for the stable
//! version. The stable version storage is expected to stay small, since
//! its content is removed when the record is written to the snapshot.
//!
//! The database also keeps the set of keys that have a stable version, and
//! a graveyard: the set of keys that have been deleted from the live
//! version and are still alive in the stable version.
//!
//! A key gets its stable version when it is written or deleted for the
//! first time while the phase is CAPTURE: the value that it has then is
//! set aside, and the snapshot takes that value in place of the live one.
//! A key of the graveyard is written to the snapshot with its stable
//! version.
//!
//! The database touches no file. What it logs is collected until
//! `flush_log` hands it over, and `save_checkpoint` hands back the bytes of
//! the snapshot.

use lockfree::set::Set as LockfreeSet;
use vstd::prelude::*;
use vstd::slice::slice_to_vec;

use crate::checkpoint::io::{pair_bytes, CheckpointWriter};
use crate::log::io::{record_bytes, LogWriter};
use crate::log::logentry::{LogEntry, LogEntryView};
use crate::storage::lfmap::LFMapStorage;
use crate::storage::lfset::{lfset_contains, lfset_insert, lfset_keys, lfset_new, lfset_remove};
use crate::storage::{key_views, KeyValueStorage};
use crate::transaction::table::{TableView, TransactionTable};
use crate::types::{optional_view, CheckpointPhase, Error, ErrorKind, Xid};

verus! {

/// The state of a database as a mathematical value.
#[verifier::ext_equal]
pub struct DBView {
    /// The transaction table.
    pub table: TableView,
    /// The phase of the checkpoint.
    pub phase: CheckpointPhase,
    /// The current values, by their keys.
    pub live: Map<Seq<u8>, Seq<u8>>,
    /// The stable versions, by their keys.
    pub stable: Map<Seq<u8>, Seq<u8>>,
    /// The keys that have a stable version.
    pub stable_keys: Set<Seq<u8>>,
    /// The keys deleted from the live version that still have a stable
    /// version.
    pub graveyard: Set<Seq<u8>>,
    /// The log records written and not yet handed over.
    pub log: Seq<u8>,
}

impl DBView {
    /// Whether the parts of the state fit together: the table is in the
    /// phase of the checkpoint, the keys marked stable are those of the
    /// stable versions, each of them is live or in the graveyard, and the
    /// graveyard holds no live key.
    pub open spec fn valid(self) -> bool {
        &&& self.table.valid()
        &&& self.table.phase == self.phase
        &&& self.stable_keys == self.stable.dom()
        &&& self.graveyard.subset_of(self.stable_keys)
        &&& self.graveyard.disjoint(self.live.dom())
        &&& self.stable_keys.subset_of(self.live.dom() + self.graveyard)
    }

    /// The state after a transaction has begun and ended at once.
    pub open spec fn ticked(self) -> DBView {
        DBView { table: self.table.begin().end(self.table.next_xid), ..self }
    }

    /// The state after the value of `key` has been set aside, where a
    /// change of `key` calls for it: in phase CAPTURE, for a live key
    /// without a stable version.
    pub open spec fn frozen(self, key: Seq<u8>) -> DBView {
        if self.phase == CheckpointPhase::CAPTURE && !self.stable_keys.contains(key)
            && self.live.contains_key(key) {
            DBView {
                stable: self.stable.insert(key, self.live[key]),
                stable_keys: self.stable_keys.insert(key),
                ..self
            }
        } else {
            self
        }
    }

    /// The state with the record of `entry` added to the log.
    pub open spec fn logged(self, entry: LogEntryView) -> DBView {
        DBView { log: self.log + record_bytes(entry), ..self }
    }

    /// The log entry of a change of `key` to `value`, or of its deletion
    /// where `value` is `None`.
    pub open spec fn update_entry(self, key: Seq<u8>, value: Option<Seq<u8>>) -> LogEntryView {
        LogEntryView::Update {
            xid: self.table.next_xid,
            key,
            value,
            previous_value: self.live.get(key),
        }
    }

    /// The state after `key` has been given `value`, in a transaction of
    /// its own.
    pub open spec fn put(self, key: Seq<u8>, value: Seq<u8>) -> DBView {
        let changed = self.frozen(key).logged(self.update_entry(key, Some(value))).ticked();
        DBView {
            live: self.live.insert(key, value),
            graveyard: self.graveyard.remove(key),
            ..changed
        }
    }

    /// The state after `key` has been deleted, in a transaction of its
    /// own.
    pub open spec fn delete(self, key: Seq<u8>) -> DBView {
        let changed = self.frozen(key).logged(self.update_entry(key, None)).ticked();
        DBView {
            live: self.live.remove(key),
            graveyard: if changed.stable_keys.contains(key) {
                self.graveyard.insert(key)
            } else {
                self.graveyard
            },
            ..changed
        }
    }

    /// The state after the checkpoint has entered `phase`.
    pub open spec fn entered(self, phase: CheckpointPhase) -> DBView {
        DBView {
            phase,
            table: TableView { phase, ..self.table },
            ..self.logged(LogEntryView::CPhase(phase))
        }
    }

    /// The state without stable versions.
    pub open spec fn cleared(self) -> DBView {
        DBView {
            stable: Map::empty(),
            stable_keys: Set::empty(),
            graveyard: Set::empty(),
            ..self
        }
    }

    /// What a snapshot holds: for each key that is live or in the
    /// graveyard its stable version, and where it has none its live
    /// value.
    pub open spec fn snapshot(self) -> Map<Seq<u8>, Seq<u8>> {
        Map::new(
            |key: Seq<u8>| self.live.contains_key(key) || self.graveyard.contains(key),
            |key: Seq<u8>|
                if self.stable_keys.contains(key) {
                    self.stable[key]
                } else {
                    self.live[key]
                },
        )
    }
}

/// A change that a client makes to the database.
pub enum DBOp {
    /// The key gets the value.
    Put(Seq<u8>, Seq<u8>),
    /// The key is deleted.
    Delete(Seq<u8>),
}

impl DBView {
    /// The state after the changes `ops`, in order.
    pub open spec fn after(self, ops: Seq<DBOp>) -> DBView
        decreases ops.len(),
    {
        if ops.len() == 0 {
            self
        } else {
            let before = self.after(ops.drop_last());
            match ops.last() {
                DBOp::Put(key, value) => before.put(key, value),
                DBOp::Delete(key) => before.delete(key),
            }
        }
    }

    /// Whether the snapshot would give `key` the value `value`.
    pub open spec fn captures(self, key: Seq<u8>, value: Seq<u8>) -> bool {
        self.snapshot().contains_key(key) && self.snapshot()[key] == value
    }
}

/// Changes keep a consistent state consistent and leave the phase as it
/// is. Stable versions arise in CAPTURE only: outside of it, changes to a
/// state without stable versions leave it without them.
pub proof fn lemma_changes_keep_valid(start: DBView, ops: Seq<DBOp>)
    requires
        start.valid(),
        start.table.next_xid + ops.len() <= u64::MAX,
    ensures
        start.after(ops).valid(),
        start.after(ops).phase == start.phase,
        start.after(ops).table.next_xid == start.table.next_xid + ops.len(),
        start.phase != CheckpointPhase::CAPTURE && start.stable_keys == Set::<Seq<u8>>::empty()
            ==> start.after(ops).stable_keys == Set::<Seq<u8>>::empty(),
    decreases ops.len(),
{
    if ops.len() > 0 {
        lemma_changes_keep_valid(start, ops.drop_last());
        let before = start.after(ops.drop_last());
        match ops.last() {
            DBOp::Put(key, value) => {
                assert(before.put(key, value).stable_keys =~= before.put(key, value).stable.dom());
            },
            DBOp::Delete(key) => {
                assert(before.delete(key).stable_keys =~= before.delete(key).stable.dom());
            },
        }
    }
}

/// A snapshot is complete: where nothing was changed during CAPTURE, so
/// that no key has a stable version, the snapshot holds exactly the live
/// keys, each with its current value.
pub proof fn lemma_snapshot_of_unchanged_store(db: DBView)
    requires
        db.valid(),
        db.stable_keys == Set::<Seq<u8>>::empty(),
    ensures
        db.snapshot() == db.live,
{
    assert(db.snapshot() =~= db.live);
}

/// The snapshot does not lose what was live when CAPTURE began: whatever
/// is changed during CAPTURE, a key that was live at its start, with no
/// stable versions left from before, is written with the value that it
/// had then.
pub proof fn lemma_snapshot_keeps_capture_start(start: DBView, ops: Seq<DBOp>, key: Seq<u8>)
    requires
        start.valid(),
        start.phase == CheckpointPhase::CAPTURE,
        start.stable_keys == Set::<Seq<u8>>::empty(),
        start.live.contains_key(key),
    ensures
        start.after(ops).captures(key, start.live[key]),
        start.after(ops).phase == CheckpointPhase::CAPTURE,
        start.after(ops).stable_keys == start.after(ops).stable.dom(),
        start.after(ops).stable_keys.contains(key) || start.after(ops).live.contains_key(key),
        start.after(ops).graveyard.contains(key) ==> start.after(ops).stable_keys.contains(key),
    decreases ops.len(),
{
    if ops.len() > 0 {
        lemma_snapshot_keeps_capture_start(start, ops.drop_last(), key);
        let before = start.after(ops.drop_last());
        match ops.last() {
            DBOp::Put(changed, value) => {
                assert(before.put(changed, value).stable_keys =~= before.put(
                    changed,
                    value,
                ).stable.dom());
            },
            DBOp::Delete(changed) => {
                assert(before.delete(changed).stable_keys =~= before.delete(changed).stable.dom());
            },
        }
    }
}

/// The records of the keys `keys` with their values in `values`, in
/// order.
pub open spec fn snapshot_bytes(keys: Seq<Seq<u8>>, values: Map<Seq<u8>, Seq<u8>>) -> Seq<u8>
    decreases keys.len(),
{
    if keys.len() == 0 {
        Seq::empty()
    } else {
        snapshot_bytes(keys.drop_last(), values) + pair_bytes(keys.last(), values[keys.last()])
    }
}

/// Whether `bytes` is a snapshot of `values`: the records of its keys,
/// each once, in some order.
pub open spec fn is_snapshot(bytes: Seq<u8>, values: Map<Seq<u8>, Seq<u8>>) -> bool {
    exists|keys: Seq<Seq<u8>>|
        keys.no_duplicates() && keys.to_set() == values.dom() && bytes == #[trigger] snapshot_bytes(
            keys,
            values,
        )
}

/// The records of a list of keys end with the record of the last key.
pub proof fn lemma_snapshot_bytes_push(
    keys: Seq<Seq<u8>>,
    key: Seq<u8>,
    values: Map<Seq<u8>, Seq<u8>>,
)
    ensures
        snapshot_bytes(keys.push(key), values) == snapshot_bytes(keys, values) + pair_bytes(
            key,
            values[key],
        ),
{
    assert(keys.push(key).drop_last() =~= keys);
}

/// A database over two stores of the kind `S`.
pub struct DB<S: KeyValueStorage> {
    xtable: TransactionTable,
    phase: CheckpointPhase,
    live_storage: S,
    stable_storage: S,
    stable_keys: LockfreeSet<Vec<u8>>,
    graveyard: LockfreeSet<Vec<u8>>,
    log: LogWriter,
}

impl<S: KeyValueStorage> View for DB<S> {
    type V = DBView;

    closed spec fn view(&self) -> DBView {
        DBView {
            table: self.xtable@,
            phase: self.phase,
            live: self.live_storage.contents(),
            stable: self.stable_storage.contents(),
            stable_keys: lfset_keys(self.stable_keys),
            graveyard: lfset_keys(self.graveyard),
            log: self.log@,
        }
    }
}

impl DB<LFMapStorage> {
    /// An empty database over two lock-free maps, in phase REST. Nothing
    /// is read from the path.
    pub fn open(_path: &str) -> (db: Self)
        ensures
            db.wf(),
            db@ == (DBView {
                table: TableView::initial(),
                phase: CheckpointPhase::REST,
                live: Map::empty(),
                stable: Map::empty(),
                stable_keys: Set::empty(),
                graveyard: Set::empty(),
                log: Seq::empty(),
            }),
    {
        DB::with_storage(LFMapStorage::new(), LFMapStorage::new())
    }
}

impl<S: KeyValueStorage> DB<S> {
    /// Whether the database is consistent. Every database that this
    /// module hands out is.
    pub closed spec fn wf(&self) -> bool {
        self.xtable.wf() && self@.valid()
    }

    /// In a consistent database the parts of the state fit together.
    pub proof fn lemma_wf_valid(&self)
        requires
            self.wf(),
        ensures
            self@.valid(),
    {
    }

    /// A database in phase REST over the live store `live_storage` and
    /// the empty store `stable_storage`.
    pub fn with_storage(live_storage: S, stable_storage: S) -> (db: Self)
        requires
            stable_storage.contents() == Map::<Seq<u8>, Seq<u8>>::empty(),
        ensures
            db.wf(),
            db@ == (DBView {
                table: TableView::initial(),
                phase: CheckpointPhase::REST,
                live: live_storage.contents(),
                stable: Map::empty(),
                stable_keys: Set::empty(),
                graveyard: Set::empty(),
                log: Seq::empty(),
            }),
    {
        let db = DB {
            xtable: TransactionTable::new(),
            phase: CheckpointPhase::REST,
            live_storage,
            stable_storage,
            stable_keys: lfset_new(),
            graveyard: lfset_new(),
            log: LogWriter::new(),
        };
        proof {
            assert(db@.stable_keys =~= db@.stable.dom());
        }
        db
    }

    /// The value of `key` in the live store.
    pub fn get(&self, key: &[u8]) -> (r: Result<Option<Vec<u8>>, Error>)
        ensures
            r matches Ok(value) && optional_view(value) == self@.live.get(key@),
    {
        let v = self.live_storage.get(key);
        Ok(v)
    }

    /// The phase that the checkpoint is in.
    pub fn current_phase(&self) -> (phase: CheckpointPhase)
        ensures
            phase == self@.phase,
    {
        self.phase
    }

    /// The transaction table.
    pub fn xtable(&self) -> (xtable: &TransactionTable)
        requires
            self.wf(),
        ensures
            xtable.wf(),
            xtable@ == self@.table,
    {
        &self.xtable
    }

    /// Starts a transaction and returns its id, unless all ids have been
    /// issued.
    pub fn begin(&mut self) -> (r: Result<Xid, Error>)
        requires
            old(self).wf(),
        ensures
            final(self).wf(),
            match r {
                Ok(xid) => old(self)@.table.next_xid < u64::MAX && xid == old(self)@.table.next_xid
                    && final(self)@ == (DBView { table: old(self)@.table.begin(), ..old(self)@ }),
                Err(e) => old(self)@.table.next_xid == u64::MAX && e == (Error {
                    kind: ErrorKind::XidExhausted,
                    detail: u64::MAX,
                }) && final(self)@ == old(self)@,
            },
    {
        let next = self.xtable.next_xid();
        if next == u64::MAX {
            return Err(Error { kind: ErrorKind::XidExhausted, detail: next });
        }
        let xid = self.xtable.begin();
        proof {
            self.xtable.lemma_wf_valid();
        }
        Ok(xid)
    }

    /// Ends the transaction `xid`; an id that is not active is ignored.
    pub fn end(&mut self, xid: Xid)
        requires
            old(self).wf(),
        ensures
            final(self).wf(),
            final(self)@ == (DBView { table: old(self)@.table.end(xid), ..old(self)@ }),
    {
        self.xtable.end(&xid);
        proof {
            self.xtable.lemma_wf_valid();
        }
    }

    /// Sets the value of `key` aside as its stable version, where a
    /// change of `key` calls for it; `current` is the live value.
    fn preserve(&mut self, key: &[u8], current: &Option<Vec<u8>>)
        requires
            old(self).xtable.wf(),
            old(self)@.valid(),
            optional_view(*current) == old(self)@.live.get(key@),
        ensures
            final(self).xtable == old(self).xtable,
            final(self)@ == old(self)@.frozen(key@),
            final(self)@.valid(),
    {
        if self.phase == CheckpointPhase::CAPTURE && !lfset_contains(&self.stable_keys, key) {
            match current {
                Some(value) => {
                    self.stable_storage.put(key, value.as_slice());
                    lfset_insert(&mut self.stable_keys, key);
                    assert(self@ =~= old(self)@.frozen(key@));
                },
                None => {},
            }
        }
    }

    /// Gives `key` the value `value` in a transaction of its own: the
    /// change is logged, then made. Fails where all transaction ids have
    /// been issued.
    pub fn put(&mut self, key: &[u8], value: &[u8]) -> (r: Result<(), Error>)
        requires
            old(self).wf(),
        ensures
            final(self).wf(),
            match r {
                Ok(_) => old(self)@.table.next_xid < u64::MAX && final(self)@ == old(self)@.put(
                    key@,
                    value@,
                ),
                Err(e) => old(self)@.table.next_xid == u64::MAX && e == (Error {
                    kind: ErrorKind::XidExhausted,
                    detail: u64::MAX,
                }) && final(self)@ == old(self)@,
            },
    {
        let next = self.xtable.next_xid();
        if next == u64::MAX {
            return Err(Error { kind: ErrorKind::XidExhausted, detail: next });
        }
        let previous_value = self.live_storage.get(key);
        self.preserve(key, &previous_value);
        let xid = self.xtable.begin();
        let entry = LogEntry::Update {
            xid,
            key: slice_to_vec(key),
            value: Some(slice_to_vec(value)),
            previous_value,
        };
        self.log.write(&entry);
        self.live_storage.put(key, value);
        lfset_remove(&mut self.graveyard, key);
        self.xtable.end(&xid);
        proof {
            self.xtable.lemma_wf_valid();
            assert(self@ =~= old(self)@.put(key@, value@));
        }
        Ok(())
    }

    /// Deletes `key` in a transaction of its own: the change is logged,
    /// then made; a key with a stable version goes to the graveyard.
    /// Fails where all transaction ids have been issued.
    pub fn delete(&mut self, key: &[u8]) -> (r: Result<(), Error>)
        requires
            old(self).wf(),
        ensures
            final(self).wf(),
            match r {
                Ok(_) => {
                    &&& old(self)@.table.next_xid < u64::MAX
                    &&& final(self)@ == old(self)@.delete(key@)
                },
                Err(e) => old(self)@.table.next_xid == u64::MAX && e == (Error {
                    kind: ErrorKind::XidExhausted,
                    detail: u64::MAX,
                }) && final(self)@ == old(self)@,
            },
    {
        let next = self.xtable.next_xid();
        if next == u64::MAX {
            return Err(Error { kind: ErrorKind::XidExhausted, detail: next });
        }
        let previous_value = self.live_storage.get(key);
        self.preserve(key, &previous_value);
        let xid = self.xtable.begin();
        let entry = LogEntry::Update { xid, key: slice_to_vec(key), value: None, previous_value };
        self.log.write(&entry);
        self.live_storage.delete(key);
        if lfset_contains(&self.stable_keys, key) {
            lfset_insert(&mut self.graveyard, key);
        }
        self.xtable.end(&xid);
        proof {
            self.xtable.lemma_wf_valid();
            assert(self@ =~= old(self)@.delete(key@));
        }
        Ok(())
    }

    /// Drops the stable version of `key` and what is kept about it.
    fn forget(&mut self, key: &[u8])
        ensures
            final(self).xtable == old(self).xtable,
            final(self)@ == (DBView {
                stable: old(self)@.stable.remove(key@),
                stable_keys: old(self)@.stable_keys.remove(key@),
                graveyard: old(self)@.graveyard.remove(key@),
                ..old(self)@
            }),
    {
        self.stable_storage.delete(key);
        lfset_remove(&mut self.stable_keys, key);
        lfset_remove(&mut self.graveyard, key);
    }

    /// Writes the snapshot and returns its bytes, for the caller to write
    /// to the snapshot file and sync: one record for each live key, with
    /// its stable version where it has one and its live value where it
    /// has none, then one for each key of the graveyard, with its stable
    /// version. Each stable version is dropped once its record is
    /// written.
    #[verifier::rlimit(40)]
    pub fn save_checkpoint(&mut self) -> (snapshot: Vec<u8>)
        requires
            old(self).wf(),
            old(self)@.phase == CheckpointPhase::CAPTURE,
        ensures
            final(self).wf(),
            final(self)@ == old(self)@.cleared(),
            is_snapshot(snapshot@, old(self)@.snapshot()),
    {
        let mut writer = CheckpointWriter::new();
        let ghost image = self@.snapshot();
        let keys = self.live_storage.keys();
        let ghost live_keys = key_views(keys@);
        let mut i: usize = 0;
        while i < keys.len()
            invariant
                i <= keys.len(),
                live_keys == key_views(keys@),
                live_keys.no_duplicates(),
                live_keys.to_set() == old(self)@.live.dom(),
                old(self)@.valid(),
                image == old(self)@.snapshot(),
                self.xtable == old(self).xtable,
                self@ == (DBView {
                    stable: old(self)@.stable.remove_keys(live_keys.take(i as int).to_set()),
                    stable_keys: old(self)@.stable_keys.difference(
                        live_keys.take(i as int).to_set(),
                    ),
                    ..old(self)@
                }),
                writer@.data == snapshot_bytes(live_keys.take(i as int), image),
            decreases keys.len() - i,
        {
            let key = keys[i].as_slice();
            let ghost done = live_keys.take(i as int);
            assert(live_keys[i as int] == key@);
            assert(old(self)@.live.dom().contains(key@)) by {
                assert(live_keys.to_set().contains(live_keys[i as int]));
            }
            assert(!done.to_set().contains(key@)) by {
                if done.contains(key@) {
                    let j = choose|j: int| 0 <= j < done.len() && done[j] == key@;
                    assert(live_keys[j] == live_keys[i as int]);
                }
            }
            let value = if lfset_contains(&self.stable_keys, key) {
                self.stable_storage.get(key)
            } else {
                self.live_storage.get(key)
            };
            match value {
                Some(value) => {
                    writer.append(key, value.as_slice());
                    assert(value@ == image[key@]);
                },
                None => {
                    assert(false);
                },
            }
            self.forget(key);
            proof {
                let next = live_keys.take(i + 1);
                assert(next =~= done.push(key@));
                lemma_snapshot_bytes_push(done, key@, image);
                done.lemma_push_to_set_commute(key@);
                assert(!old(self)@.graveyard.contains(key@));
                assert(self@ =~= (DBView {
                    stable: old(self)@.stable.remove_keys(next.to_set()),
                    stable_keys: old(self)@.stable_keys.difference(next.to_set()),
                    ..old(self)@
                }));
            }
            i = i + 1;
        }
        proof {
            assert(live_keys.take(keys.len() as int) =~= live_keys);
        }
        let buried = self.stable_storage.keys();
        let ghost dead_keys = key_views(buried@);
        proof {
            assert(dead_keys.to_set() =~= old(self)@.graveyard) by {
                let graveyard = old(self)@.graveyard;
                assert forall|key: Seq<u8>|
                    dead_keys.to_set().contains(key) <==> graveyard.contains(key) by {
                    if old(self)@.graveyard.contains(key) {
                        assert(old(self)@.stable_keys.contains(key));
                        assert(!old(self)@.live.dom().contains(key));
                    }
                    if dead_keys.to_set().contains(key) {
                        assert(old(self)@.stable_keys.contains(key));
                        assert((old(self)@.live.dom() + old(self)@.graveyard).contains(key));
                    }
                }
            }
        }
        let ghost middle = self@;
        let mut j: usize = 0;
        while j < buried.len()
            invariant
                j <= buried.len(),
                dead_keys == key_views(buried@),
                dead_keys.no_duplicates(),
                dead_keys.to_set() == old(self)@.graveyard,
                live_keys.no_duplicates(),
                live_keys.to_set() == old(self)@.live.dom(),
                old(self)@.valid(),
                image == old(self)@.snapshot(),
                self.xtable == old(self).xtable,
                middle == (DBView {
                    stable: old(self)@.stable.remove_keys(live_keys.to_set()),
                    stable_keys: old(self)@.stable_keys.difference(live_keys.to_set()),
                    ..old(self)@
                }),
                self@ == (DBView {
                    stable: middle.stable.remove_keys(dead_keys.take(j as int).to_set()),
                    stable_keys: middle.stable_keys.difference(dead_keys.take(j as int).to_set()),
                    graveyard: middle.graveyard.difference(dead_keys.take(j as int).to_set()),
                    ..middle
                }),
                writer@.data == snapshot_bytes(live_keys + dead_keys.take(j as int), image),
            decreases buried.len() - j,
        {
            let key = buried[j].as_slice();
            let ghost done = dead_keys.take(j as int);
            assert(dead_keys[j as int] == key@);
            assert(old(self)@.graveyard.contains(key@)) by {
                assert(dead_keys.to_set().contains(dead_keys[j as int]));
            }
            assert(!done.to_set().contains(key@)) by {
                if done.contains(key@) {
                    let k = choose|k: int| 0 <= k < done.len() && done[k] == key@;
                    assert(dead_keys[k] == dead_keys[j as int]);
                }
            }
            assert(old(self)@.stable_keys.contains(key@));
            assert(!old(self)@.live.dom().contains(key@));
            let value = self.stable_storage.get(key);
            match value {
                Some(value) => {
                    writer.append(key, value.as_slice());
                    assert(value@ == image[key@]);
                },
                None => {
                    assert(false);
                },
            }
            self.forget(key);
            proof {
                let next = dead_keys.take(j + 1);
                assert(next =~= done.push(key@));
                assert(live_keys + next =~= (live_keys + done).push(key@));
                lemma_snapshot_bytes_push(live_keys + done, key@, image);
                done.lemma_push_to_set_commute(key@);
                assert(self@ =~= (DBView {
                    stable: middle.stable.remove_keys(next.to_set()),
                    stable_keys: middle.stable_keys.difference(next.to_set()),
                    graveyard: middle.graveyard.difference(next.to_set()),
                    ..middle
                }));
            }
            j = j + 1;
        }
        writer.flush();
        proof {
            assert(dead_keys.take(buried.len() as int) =~= dead_keys);
            let all = live_keys + dead_keys;
            assert forall|a: int, b: int|
                0 <= a < live_keys.len() && 0 <= b < dead_keys.len() implies live_keys[a]
                != dead_keys[b] by {
                assert(live_keys.to_set().contains(live_keys[a]));
                assert(dead_keys.to_set().contains(dead_keys[b]));
            }
            vstd::seq_lib::lemma_no_dup_in_concat(live_keys, dead_keys);
            vstd::seq_lib::seq_to_set_distributes_over_add(live_keys, dead_keys);
            assert(all.to_set() =~= image.dom());
            assert(self@ =~= old(self)@.cleared());
            assert(writer@.data == snapshot_bytes(all, image));
        }
        writer.into_bytes()
    }

    /// Drops the stable versions that are left when a checkpoint is
    /// over.
    pub fn post_checkpoint(&mut self)
        requires
            old(self).wf(),
            old(self)@.phase == CheckpointPhase::COMPLETE,
        ensures
            final(self).wf(),
            final(self)@ == old(self)@.cleared(),
    {
        let left = self.stable_storage.keys();
        let ghost left_keys = key_views(left@);
        let mut i: usize = 0;
        while i < left.len()
            invariant
                i <= left.len(),
                left_keys == key_views(left@),
                left_keys.to_set() == old(self)@.stable.dom(),
                old(self)@.valid(),
                self.xtable == old(self).xtable,
                self@ == (DBView {
                    stable: old(self)@.stable.remove_keys(left_keys.take(i as int).to_set()),
                    stable_keys: old(self)@.stable_keys.difference(
                        left_keys.take(i as int).to_set(),
                    ),
                    graveyard: old(self)@.graveyard.difference(left_keys.take(i as int).to_set()),
                    ..old(self)@
                }),
            decreases left.len() - i,
        {
            let key = left[i].as_slice();
            let ghost done = left_keys.take(i as int);
            assert(left_keys[i as int] == key@);
            self.forget(key);
            proof {
                let next = left_keys.take(i + 1);
                assert(next =~= done.push(key@));
                done.lemma_push_to_set_commute(key@);
                assert(self@ =~= (DBView {
                    stable: old(self)@.stable.remove_keys(next.to_set()),
                    stable_keys: old(self)@.stable_keys.difference(next.to_set()),
                    graveyard: old(self)@.graveyard.difference(next.to_set()),
                    ..old(self)@
                }));
            }
            i = i + 1;
        }
        proof {
            assert(left_keys.take(left.len() as int) =~= left_keys);
            assert(self@ =~= old(self)@.cleared());
        }
    }

    /// Enters the phase `phase`, which comes next in the cycle: the
    /// change is logged, then made, in the database and in the
    /// transaction table. Returns the id that the next transaction gets,
    /// the barrier of the phase.
    pub fn set_phase(&mut self, phase: CheckpointPhase) -> (xid: Xid)
        requires
            old(self).wf(),
            phase == old(self)@.phase.next(),
        ensures
            final(self).wf(),
            final(self)@ == old(self)@.entered(phase),
            xid == old(self)@.table.next_xid,
    {
        self.log.write(&LogEntry::CPhase(phase));
        self.phase = phase;
        let xid = self.xtable.move_to_next_phase();
        proof {
            self.xtable.lemma_wf_valid();
            assert(self@ =~= old(self)@.entered(phase));
        }
        xid
    }

    /// Enters `phase` where it comes next in the cycle, as `set_phase`
    /// does, and returns the barrier. Any other phase is refused: nothing
    /// changes, and `None` is returned.
    pub fn try_set_phase(&mut self, phase: CheckpointPhase) -> (barrier: Option<Xid>)
        requires
            old(self).wf(),
        ensures
            final(self).wf(),
            phase == old(self)@.phase.next() ==> {
                &&& barrier == Some(old(self)@.table.next_xid)
                &&& final(self)@ == old(self)@.entered(phase)
            },
            phase != old(self)@.phase.next() ==> barrier is None && final(self)@ == old(self)@,
    {
        if phase == self.phase.next() {
            Some(self.set_phase(phase))
        } else {
            None
        }
    }

    /// Hands over the log records written since the last call, for the
    /// caller to append to the log file and sync.
    pub fn flush_log(&mut self) -> (bytes: Vec<u8>)
        requires
            old(self).wf(),
        ensures
            final(self).wf(),
            bytes@ == old(self)@.log,
            final(self)@ == (DBView { log: Seq::empty(), ..old(self)@ }),
    {
        self.log.flush()
    }
}

} // verus!
