//! The transaction table: it issues transaction ids in increasing order and
//! keeps the ids of the transactions that have begun and not ended.

use skiplist::OrderedSkipList;
use vstd::multiset::Multiset;
use vstd::prelude::*;

use crate::types::{CheckpointPhase, Xid};

verus! {

#[verifier::external_type_specification]
#[verifier::external_body]
#[verifier::reject_recursive_types(T)]
pub struct ExOrderedSkipList<T>(OrderedSkipList<T>);

/// The items that an ordered skip list holds, each as often as it was
/// inserted and not removed.
pub uninterp spec fn skiplist_items(list: OrderedSkipList<Xid>) -> Multiset<Xid>;

/// `OrderedSkipList::new`: a list that holds nothing and orders its items
/// by `partial_cmp`, which on integers is their order.
#[verifier::external_body]
fn skiplist_new() -> (list: OrderedSkipList<Xid>)
    ensures
        skiplist_items(list) == Multiset::<Xid>::empty(),
{
    OrderedSkipList::new()
}

/// `OrderedSkipList::insert`: the list holds `value` once more than
/// before, and everything else as before.
#[verifier::external_body]
fn skiplist_insert(list: &mut OrderedSkipList<Xid>, value: Xid)
    ensures
        skiplist_items(*final(list)) == skiplist_items(*old(list)).insert(value),
{
    list.insert(value)
}

/// `OrderedSkipList::remove`: where the list holds `value`, one occurrence
/// leaves it and is returned; where it does not, nothing changes and
/// `None` is returned.
#[verifier::external_body]
fn skiplist_remove(list: &mut OrderedSkipList<Xid>, value: &Xid) -> (removed: Option<Xid>)
    ensures
        skiplist_items(*final(list)) == skiplist_items(*old(list)).remove(*value),
        removed == (if skiplist_items(*old(list)).contains(*value) {
            Some(*value)
        } else {
            None
        }),
{
    list.remove(value)
}

/// `OrderedSkipList::front`: the first item in the list's order, which is
/// its least; `None` where the list is empty.
#[verifier::external_body]
fn skiplist_front(list: &OrderedSkipList<Xid>) -> (front: Option<Xid>)
    ensures
        front is None <==> skiplist_items(*list).len() == 0,
        front matches Some(least) ==> skiplist_items(*list).contains(least) && forall|x: Xid|
            skiplist_items(*list).contains(x) ==> least <= x,
{
    list.front().map(|x| *x)
}

/// The state of a transaction table as a mathematical value.
pub struct TableView {
    /// The id that the next transaction gets.
    pub next_xid: Xid,
    /// The ids of the transactions that have begun and not ended.
    pub active: Set<Xid>,
    /// The checkpoint phase that the table is in.
    pub phase: CheckpointPhase,
}

impl TableView {
    /// The table before any transaction.
    pub open spec fn initial() -> TableView {
        TableView { next_xid: 1, active: Set::empty(), phase: CheckpointPhase::REST }
    }

    /// Whether ids start at 1 and every active id has been issued.
    pub open spec fn valid(self) -> bool {
        &&& 1 <= self.next_xid
        &&& forall|x: Xid| self.active.contains(x) ==> 1 <= x < self.next_xid
    }

    /// The table after one more transaction has begun, with the id
    /// `self.next_xid`.
    pub open spec fn begin(self) -> TableView
        recommends
            self.next_xid < u64::MAX,
    {
        TableView {
            next_xid: (self.next_xid + 1) as Xid,
            active: self.active.insert(self.next_xid),
            phase: self.phase,
        }
    }

    /// The table after transaction `xid` has ended.
    pub open spec fn end(self, xid: Xid) -> TableView {
        TableView { next_xid: self.next_xid, active: self.active.remove(xid), phase: self.phase }
    }

    /// The least active id, if any transaction is active.
    pub open spec fn oldest(self) -> Option<Xid> {
        if self.active =~= Set::empty() {
            None
        } else {
            Some(choose|least: Xid| self.is_oldest(least))
        }
    }

    /// Whether `least` is active and no active id is below it.
    pub open spec fn is_oldest(self, least: Xid) -> bool {
        &&& self.active.contains(least)
        &&& forall|x: Xid| self.active.contains(x) ==> least <= x
    }

    /// Whether every transaction that began before `barrier` was issued
    /// has ended: no active id is below `barrier`.
    pub open spec fn quiescent(self, barrier: Xid) -> bool {
        forall|x: Xid| self.active.contains(x) ==> barrier <= x
    }
}

/// A call on a transaction table that changes it.
pub enum TableOp {
    /// A transaction begins.
    Begin,
    /// The transaction with this id ends.
    End(Xid),
}

/// The number of transactions that `ops` begin.
pub open spec fn begins(ops: Seq<TableOp>) -> nat
    decreases ops.len(),
{
    if ops.len() == 0 {
        0
    } else {
        begins(ops.drop_last()) + if ops.last() is Begin {
            1nat
        } else {
            0nat
        }
    }
}

impl TableView {
    /// The table after the calls `ops`, in order.
    pub open spec fn after(self, ops: Seq<TableOp>) -> TableView
        decreases ops.len(),
    {
        if ops.len() == 0 {
            self
        } else {
            let before = self.after(ops.drop_last());
            match ops.last() {
                TableOp::Begin => before.begin(),
                TableOp::End(xid) => before.end(xid),
            }
        }
    }

    /// The ids that the calls `ops` issue, in order.
    pub open spec fn issued(self, ops: Seq<TableOp>) -> Seq<Xid>
        decreases ops.len(),
    {
        if ops.len() == 0 {
            Seq::empty()
        } else {
            let earlier = self.issued(ops.drop_last());
            match ops.last() {
                TableOp::Begin => earlier.push(self.after(ops.drop_last()).next_xid),
                TableOp::End(_) => earlier,
            }
        }
    }

    /// Whether the transaction `xid` has begun and not ended when the
    /// calls `ops` are over: it was active before them and none of them
    /// ends it, or one of them issues `xid` and none after that ends it.
    pub open spec fn begun_and_not_ended(self, ops: Seq<TableOp>, xid: Xid) -> bool {
        ||| self.active.contains(xid) && forall|j: int|
            0 <= j < ops.len() ==> ops[j] != TableOp::End(xid)
        ||| exists|i: int|
            0 <= i < ops.len() && ops[i] is Begin && #[trigger] self.after(ops.take(i)).next_xid
                == xid && forall|j: int| i < j < ops.len() ==> ops[j] != TableOp::End(xid)
    }
}

/// Ids are issued without gaps or repeats: the calls `ops` on a table
/// whose next id is `n` issue `n`, `n + 1`, and so on, one for each
/// transaction they begin, and leave a consistent table whose next id
/// comes behind them.
pub proof fn lemma_issued_ids(table: TableView, ops: Seq<TableOp>)
    requires
        table.valid(),
        table.next_xid + begins(ops) <= u64::MAX,
    ensures
        table.after(ops).valid(),
        table.after(ops).phase == table.phase,
        table.after(ops).next_xid == table.next_xid + begins(ops),
        table.issued(ops).len() == begins(ops),
        forall|i: int|
            0 <= i < begins(ops) ==> #[trigger] table.issued(ops)[i] == table.next_xid + i,
    decreases ops.len(),
{
    if ops.len() > 0 {
        lemma_issued_ids(table, ops.drop_last());
    }
}

/// From an empty table the ids issued by `n` calls of `begin`, however
/// calls of `end` are mixed in, are exactly 1 to `n`, in this order: none
/// is left out and none comes twice.
pub proof fn lemma_issued_ids_from_start(ops: Seq<TableOp>)
    requires
        begins(ops) < u64::MAX,
    ensures
        TableView::initial().issued(ops) == Seq::new(begins(ops), |i: int| (i + 1) as Xid),
        TableView::initial().issued(ops).no_duplicates(),
        forall|xid: Xid|
            TableView::initial().issued(ops).contains(xid) <==> 1 <= xid <= begins(ops),
{
    lemma_issued_ids(TableView::initial(), ops);
    let issued = TableView::initial().issued(ops);
    assert(issued =~= Seq::new(begins(ops), |i: int| (i + 1) as Xid));
    assert forall|xid: Xid| issued.contains(xid) <==> 1 <= xid <= begins(ops) by {
        if 1 <= xid <= begins(ops) {
            assert(issued[xid - 1] == xid);
        }
    }
}

/// The calls in front of a call begin no more transactions than all of
/// them.
pub proof fn lemma_begins_take(ops: Seq<TableOp>, count: int)
    requires
        0 <= count <= ops.len(),
    ensures
        begins(ops.take(count)) <= begins(ops),
        count < ops.len() && ops[count] is Begin ==> begins(ops.take(count)) < begins(ops),
    decreases ops.len(),
{
    if count == ops.len() {
        assert(ops.take(count) =~= ops);
    } else {
        assert(ops.drop_last().take(count) =~= ops.take(count));
        if count == ops.len() - 1 {
            assert(ops.take(count) =~= ops.drop_last());
        } else {
            lemma_begins_take(ops.drop_last(), count);
        }
    }
}

/// The active ids are those of the transactions that have begun and not
/// ended.
#[verifier::rlimit(40)]
pub proof fn lemma_active_ids(table: TableView, ops: Seq<TableOp>, xid: Xid)
    requires
        table.valid(),
        table.next_xid + begins(ops) <= u64::MAX,
    ensures
        table.after(ops).active.contains(xid) <==> table.begun_and_not_ended(ops, xid),
    decreases ops.len(),
{
    if ops.len() == 0 {
        return ;
    }
    let front = ops.drop_last();
    let before = table.after(front);
    lemma_active_ids(table, front, xid);
    lemma_issued_ids(table, front);
    assert forall|i: int| 0 <= i < front.len() implies front.take(i) == ops.take(i) by {
        assert(front.take(i) =~= ops.take(i));
    }
    assert(ops.take(front.len() as int) =~= front);
    if table.after(ops).active.contains(xid) {
        if before.active.contains(xid) && ops.last() != TableOp::End(xid) {
            if table.active.contains(xid) && forall|j: int|
                0 <= j < front.len() ==> front[j] != TableOp::End(xid) {
                assert forall|j: int| 0 <= j < ops.len() implies ops[j] != TableOp::End(xid) by {
                    if j < front.len() {
                        assert(front[j] == ops[j]);
                    }
                }
            } else {
                let i = choose|i: int|
                    0 <= i < front.len() && front[i] is Begin && #[trigger] table.after(
                        front.take(i),
                    ).next_xid == xid && forall|j: int|
                        i < j < front.len() ==> front[j] != TableOp::End(xid);
                assert(ops[i] == front[i]);
                assert(table.after(ops.take(i)).next_xid == xid);
                assert forall|j: int| i < j < ops.len() implies ops[j] != TableOp::End(xid) by {
                    if j < front.len() {
                        assert(front[j] == ops[j]);
                    }
                }
            }
        } else {
            assert(ops.last() is Begin && before.next_xid == xid);
            let i = front.len() as int;
            assert(table.after(ops.take(i)).next_xid == xid);
        }
        assert(table.begun_and_not_ended(ops, xid));
    }
    if table.begun_and_not_ended(ops, xid) {
        if table.active.contains(xid) && forall|j: int|
            0 <= j < ops.len() ==> ops[j] != TableOp::End(xid) {
            assert forall|j: int| 0 <= j < front.len() implies front[j] != TableOp::End(xid) by {
                assert(front[j] == ops[j]);
            }
            assert(ops.last() == ops[ops.len() - 1]);
        } else {
            let i = choose|i: int|
                0 <= i < ops.len() && ops[i] is Begin && #[trigger] table.after(
                    ops.take(i),
                ).next_xid == xid && forall|j: int|
                    i < j < ops.len() ==> ops[j] != TableOp::End(xid);
            if i < front.len() {
                assert(front[i] == ops[i]);
                assert(table.after(front.take(i)).next_xid == xid);
                assert forall|j: int| i < j < front.len() implies front[j] != TableOp::End(
                    xid,
                ) by {
                    assert(front[j] == ops[j]);
                }
                assert(table.begun_and_not_ended(front, xid));
                assert(ops.last() == ops[ops.len() - 1]);
            }
        }
        assert(table.after(ops).active.contains(xid));
    }
}

/// No transaction is active below the barrier exactly where none is
/// active at all or the oldest is at or above the barrier.
pub proof fn lemma_quiescent_by_oldest(table: TableView, barrier: Xid)
    ensures
        table.quiescent(barrier) <==> match table.oldest() {
            Some(least) => barrier <= least,
            None => true,
        },
{
    if table.active =~= Set::empty() {
        assert(table.oldest() is None);
    } else {
        let witness = choose|x: Xid| table.active.contains(x);
        assert(table.active.contains(witness));
        lemma_least_exists(table, witness);
        let least = choose|least: Xid| table.is_oldest(least);
        assert(table.is_oldest(least));
        assert(table.oldest() == Some(least));
    }
}

/// Where a transaction is active, one of the active ones is the oldest.
proof fn lemma_least_exists(table: TableView, bound: Xid)
    requires
        table.active.contains(bound),
    ensures
        exists|least: Xid| table.is_oldest(least),
    decreases bound,
{
    if exists|x: Xid| table.active.contains(x) && x < bound {
        let smaller = choose|x: Xid| table.active.contains(x) && x < bound;
        lemma_least_exists(table, smaller);
    } else {
        assert(table.is_oldest(bound));
    }
}

/// Keeps track of currently active transactions.
///
/// It generates a monotonically increasing transaction id (xid) during
/// operation and stores active transaction entries in ascending order in
/// a skip list.
pub struct TransactionTable {
    next_xid: Xid,
    phase: CheckpointPhase,
    active_xids: OrderedSkipList<Xid>,
}

impl View for TransactionTable {
    type V = TableView;

    closed spec fn view(&self) -> TableView {
        TableView {
            next_xid: self.next_xid,
            active: skiplist_items(self.active_xids).dom(),
            phase: self.phase,
        }
    }
}

impl TransactionTable {
    /// Whether the table is consistent: ids start at 1, every active id
    /// has been issued, and none is held twice. Every table that this
    /// module hands out is.
    pub closed spec fn wf(&self) -> bool {
        &&& 1 <= self.next_xid
        &&& forall|x: Xid| #[trigger]
            skiplist_items(self.active_xids).count(x) > 0 ==> 1 <= x < self.next_xid
                && skiplist_items(self.active_xids).count(x) == 1
    }

    /// In a consistent table ids start at 1 and every active id has been
    /// issued.
    pub proof fn lemma_wf_valid(&self)
        requires
            self.wf(),
        ensures
            self@.valid(),
    {
    }

    /// A table without transactions, whose first id is 1.
    pub fn new() -> (table: Self)
        ensures
            table.wf(),
            table@ == TableView::initial(),
    {
        let table = TransactionTable {
            next_xid: 1,
            phase: CheckpointPhase::REST,
            active_xids: skiplist_new(),
        };
        assert(table@.active =~= Set::empty());
        table
    }

    /// Start a new transaction, get the new transaction id.
    pub fn begin(&mut self) -> (xid: Xid)
        requires
            old(self).wf(),
            old(self)@.next_xid < u64::MAX,
        ensures
            final(self).wf(),
            xid == old(self)@.next_xid,
            final(self)@ == old(self)@.begin(),
    {
        let xid = self.next_xid;
        self.next_xid = xid + 1;
        skiplist_insert(&mut self.active_xids, xid);
        assert(self@.active =~= old(self)@.active.insert(xid));
        xid
    }

    /// Mark a transaction given by xid as completed. An id that is not
    /// active is ignored.
    pub fn end(&mut self, xid: &Xid)
        requires
            old(self).wf(),
        ensures
            final(self).wf(),
            final(self)@ == old(self)@.end(*xid),
    {
        let _ = skiplist_remove(&mut self.active_xids, xid);
        assert(self@.active =~= old(self)@.active.remove(*xid));
    }

    /// The id that the next transaction gets; none is issued.
    pub fn next_xid(&self) -> (next_xid: Xid)
        ensures
            next_xid == self@.next_xid,
    {
        self.next_xid
    }

    /// Returns the oldest transaction id that is still active.
    pub fn oldest_xid(&self) -> (oldest: Option<u64>)
        requires
            self.wf(),
        ensures
            oldest is None <==> self@.active == Set::<Xid>::empty(),
            oldest matches Some(least) ==> self@.is_oldest(least),
            oldest == self@.oldest(),
    {
        let oldest = skiplist_front(&self.active_xids);
        proof {
            let items = skiplist_items(self.active_xids);
            if oldest is None {
                vstd::multiset::lemma_multiset_empty_len(items);
                assert(self@.active =~= Set::empty());
            } else {
                let least = oldest->0;
                assert(self@.active.contains(least));
                assert forall|x: Xid| self@.active.contains(x) implies least <= x by {
                    assert(items.contains(x));
                }
                assert(self@.is_oldest(least));
                let chosen = choose|c: Xid| self@.is_oldest(c);
                assert(self@.is_oldest(chosen));
                assert(chosen == least);
            }
        }
        oldest
    }

    /// The checkpoint phase that the table is in.
    pub fn phase(&self) -> (phase: CheckpointPhase)
        ensures
            phase == self@.phase,
    {
        self.phase
    }

    /// Move to the next checkpointing phase, return the first xid of the
    /// next phase.
    pub fn move_to_next_phase(&mut self) -> (first: u64)
        requires
            old(self).wf(),
        ensures
            final(self).wf(),
            final(self)@ == (TableView { phase: old(self)@.phase.next(), ..old(self)@ }),
            first == old(self)@.next_xid,
    {
        self.phase = self.phase.next();
        self.next_xid
    }
}

} // verus!
