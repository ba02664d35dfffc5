//! Sets of keys in lock-free sets.
//!
//! A set is changed through `&mut` only: while a call runs nothing else
//! touches the set, and between calls it holds what the last one left.

use lockfree::set::Set as LockfreeSet;
use vstd::prelude::*;

verus! {

#[verifier::external_type_specification]
#[verifier::external_body]
#[verifier::reject_recursive_types(T)]
#[verifier::reject_recursive_types(H)]
pub struct ExLockfreeSet<T, H>(LockfreeSet<T, H>);

/// The keys that a lock-free set holds.
pub uninterp spec fn lfset_keys(set: LockfreeSet<Vec<u8>>) -> Set<Seq<u8>>;

/// `lockfree::set::Set::new`: a set that holds nothing.
#[verifier::external_body]
pub(crate) fn lfset_new() -> (fresh: LockfreeSet<Vec<u8>>)
    ensures
        lfset_keys(fresh) == Set::<Seq<u8>>::empty(),
{
    LockfreeSet::new()
}

/// `lockfree::set::Set::contains`: whether the set holds `key`.
#[verifier::external_body]
pub(crate) fn lfset_contains(set: &LockfreeSet<Vec<u8>>, key: &[u8]) -> (found: bool)
    ensures
        found == lfset_keys(*set).contains(key@),
{
    set.contains(&key.to_vec())
}

/// `lockfree::set::Set::insert`: the set holds `key` and what it held
/// before; a key that it held already is handed back and dropped.
#[verifier::external_body]
pub(crate) fn lfset_insert(set: &mut LockfreeSet<Vec<u8>>, key: &[u8])
    ensures
        lfset_keys(*final(set)) == lfset_keys(*old(set)).insert(key@),
{
    let _ = set.insert(key.to_vec());
}

/// `lockfree::set::Set::remove`: the set holds what it held before but
/// `key`.
#[verifier::external_body]
pub(crate) fn lfset_remove(set: &mut LockfreeSet<Vec<u8>>, key: &[u8])
    ensures
        lfset_keys(*final(set)) == lfset_keys(*old(set)).remove(key@),
{
    let _ = set.remove(&key.to_vec());
}

} // verus!
