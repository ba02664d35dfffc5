//! The checkpoint: the phases of a cycle and the snapshot it writes.
//!
//! A cycle leads from REST through PREPARE, RESOLVE, CAPTURE and COMPLETE
//! back to REST. PREPARE, RESOLVE and COMPLETE each have a barrier, the id
//! that was next when the phase was entered, and are left only when no
//! transaction with an id below the barrier is active. The checkpointer
//! neither sleeps nor writes: each call takes the cycle one step further
//! and tells the caller what to do before the next call.

use vstd::prelude::*;

use crate::db::{is_snapshot, DBView, DB};
use crate::storage::KeyValueStorage;
use crate::transaction::table::{
    begins, lemma_active_ids, lemma_issued_ids, TableOp, TableView, TransactionTable,
};
use crate::types::{CheckpointPhase, Xid};

pub mod io;

verus! {

/// The time to let pass before asking again whether a barrier has been
/// reached, in milliseconds.
pub const BUSY_WAIT_INTERVAL_MILLIS: u64 = 1;

/// What a step of the checkpointer did, and with it what its caller does
/// before the next step.
pub enum CheckpointStep {
    /// A transaction from before the barrier is still active: nothing
    /// changed. The caller lets the busy-wait interval pass.
    Wait,
    /// The next phase was entered.
    Advanced,
    /// The snapshot was taken and phase COMPLETE entered. The caller
    /// writes the bytes to the snapshot file and syncs it.
    Snapshot(Vec<u8>),
    /// The stable versions were dropped and phase REST entered: the
    /// cycle is over.
    Finished,
}

/// Drives the checkpoint through its phases.
pub struct Checkpointer {
    barrier: Xid,
}

impl Checkpointer {
    /// The barrier of the phase entered last.
    pub closed spec fn barrier(self) -> Xid {
        self.barrier
    }

    /// A checkpointer for a database at rest.
    pub fn new() -> (checkpointer: Self)
        ensures
            checkpointer.barrier() == 0,
    {
        Self { barrier: 0 }
    }

    /// The barrier of the phase entered last.
    pub fn current_barrier(&self) -> (barrier: Xid)
        ensures
            barrier == self.barrier(),
    {
        self.barrier
    }
}

/// Whether the wait for the barrier `xid` is over: no transaction is
/// active, or the oldest active one has an id of at least `xid`.
pub fn wait_oldest_xid_gte(xtable: &TransactionTable, xid: Xid) -> (over: bool)
    requires
        xtable.wf(),
    ensures
        over == xtable@.quiescent(xid),
{
    let oldest_xid = xtable.oldest_xid();
    match oldest_xid {
        Some(oldest) => oldest >= xid,
        None => true,
    }
}

/// Whether the barrier `barrier` holds the checkpoint back: the phase is
/// one that is left at its barrier, and a transaction with an id below
/// the barrier is active.
pub open spec fn held_back(db: DBView, barrier: Xid) -> bool {
    &&& db.phase != CheckpointPhase::REST
    &&& db.phase != CheckpointPhase::CAPTURE
    &&& !db.table.quiescent(barrier)
}

/// Takes the checkpoint one step further.
///
/// From REST, PREPARE is entered at once. PREPARE, RESOLVE and COMPLETE
/// are left when their barrier has been reached, and not before. In
/// CAPTURE the snapshot is taken and COMPLETE entered. Entering PREPARE,
/// RESOLVE or COMPLETE stamps the barrier anew.
pub fn run_checkpointer<S: KeyValueStorage>(
    checkpointer: &mut Checkpointer,
    db: &mut DB<S>,
) -> (step: CheckpointStep)
    requires
        old(db).wf(),
    ensures
        final(db).wf(),
        final(db)@.phase == old(db)@.phase || final(db)@.phase == old(db)@.phase.next(),
        step is Wait <==> held_back(old(db)@, old(checkpointer).barrier()),
        step is Wait ==> {
            &&& final(db)@ == old(db)@
            &&& final(checkpointer).barrier() == old(checkpointer).barrier()
        },
        !(step is Wait) ==> match old(db)@.phase {
            CheckpointPhase::REST => {
                &&& step is Advanced
                &&& final(db)@ == old(db)@.entered(CheckpointPhase::PREPARE)
                &&& final(checkpointer).barrier() == old(db)@.table.next_xid
            },
            CheckpointPhase::PREPARE => {
                &&& step is Advanced
                &&& final(db)@ == old(db)@.entered(CheckpointPhase::RESOLVE)
                &&& final(checkpointer).barrier() == old(db)@.table.next_xid
            },
            CheckpointPhase::RESOLVE => {
                &&& step is Advanced
                &&& final(db)@ == old(db)@.entered(CheckpointPhase::CAPTURE)
                &&& final(checkpointer).barrier() == old(checkpointer).barrier()
            },
            CheckpointPhase::CAPTURE => {
                &&& step matches CheckpointStep::Snapshot(bytes)
                &&& is_snapshot(bytes@, old(db)@.snapshot())
                &&& final(db)@ == old(db)@.cleared().entered(CheckpointPhase::COMPLETE)
                &&& final(checkpointer).barrier() == old(db)@.table.next_xid
            },
            CheckpointPhase::COMPLETE => {
                &&& step is Finished
                &&& final(db)@ == old(db)@.cleared().entered(CheckpointPhase::REST)
                &&& final(checkpointer).barrier() == old(checkpointer).barrier()
            },
        },
{
    match db.current_phase() {
        CheckpointPhase::REST => {
            checkpointer.barrier = db.set_phase(CheckpointPhase::PREPARE);
            CheckpointStep::Advanced
        },
        CheckpointPhase::PREPARE => {
            if !wait_oldest_xid_gte(db.xtable(), checkpointer.barrier) {
                return CheckpointStep::Wait;
            }
            checkpointer.barrier = db.set_phase(CheckpointPhase::RESOLVE);
            CheckpointStep::Advanced
        },
        CheckpointPhase::RESOLVE => {
            if !wait_oldest_xid_gte(db.xtable(), checkpointer.barrier) {
                return CheckpointStep::Wait;
            }
            let _ = db.set_phase(CheckpointPhase::CAPTURE);
            CheckpointStep::Advanced
        },
        CheckpointPhase::CAPTURE => {
            let snapshot = db.save_checkpoint();
            checkpointer.barrier = db.set_phase(CheckpointPhase::COMPLETE);
            CheckpointStep::Snapshot(snapshot)
        },
        CheckpointPhase::COMPLETE => {
            if !wait_oldest_xid_gte(db.xtable(), checkpointer.barrier) {
                return CheckpointStep::Wait;
            }
            db.post_checkpoint();
            let _ = db.set_phase(CheckpointPhase::REST);
            CheckpointStep::Finished
        },
    }
}

/// A barrier is sound: a transaction that is active when the barrier is
/// stamped has been ended by one of the calls that follow, once the wait
/// for the barrier is over.
pub proof fn lemma_barrier_sound(stamped: TableView, ops: Seq<TableOp>, xid: Xid)
    requires
        stamped.valid(),
        stamped.next_xid + begins(ops) <= u64::MAX,
        stamped.active.contains(xid),
        stamped.after(ops).quiescent(stamped.next_xid),
    ensures
        xid < stamped.next_xid,
        !stamped.after(ops).active.contains(xid),
        exists|j: int| 0 <= j < ops.len() && ops[j] == TableOp::End(xid),
{
    lemma_active_ids(stamped, ops, xid);
    lemma_issued_ids(stamped, ops);
    assert forall|i: int| 0 <= i < ops.len() implies #[trigger] stamped.after(
        ops.take(i),
    ).next_xid != xid by {
        crate::transaction::table::lemma_begins_take(ops, i);
        lemma_issued_ids(stamped, ops.take(i));
    }
}

/// A transaction that begins after a barrier is stamped does not hold
/// the wait for it back: its id is at or above the barrier.
pub proof fn lemma_barrier_passes_later(stamped: TableView, ops: Seq<TableOp>, index: int)
    requires
        stamped.valid(),
        stamped.next_xid + begins(ops) <= u64::MAX,
        0 <= index < begins(ops),
    ensures
        stamped.issued(ops)[index] >= stamped.next_xid,
{
    lemma_issued_ids(stamped, ops);
}

} // verus!
