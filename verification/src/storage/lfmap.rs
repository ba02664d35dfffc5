//! A store in a lock-free map.
//!
//! The map is changed through `&mut` only: while a call runs nothing else
//! touches the map, and between calls it holds what the last one left.

use lockfree::map::Iter as LockfreeIter;
use lockfree::map::Map as LockfreeMap;
use vstd::prelude::*;

use crate::storage::{key_views, KeyValueStorage};
use crate::types::optional_view;

verus! {

#[verifier::external_type_specification]
#[verifier::external_body]
#[verifier::reject_recursive_types(K)]
#[verifier::reject_recursive_types(V)]
#[verifier::reject_recursive_types(H)]
pub struct ExLockfreeMap<K, V, H>(LockfreeMap<K, V, H>);

#[verifier::external_type_specification]
#[verifier::external_body]
#[verifier::reject_recursive_types(K)]
#[verifier::reject_recursive_types(V)]
pub struct ExLockfreeIter<'map, K: 'map, V: 'map>(LockfreeIter<'map, K, V>);

/// The values that a lock-free map holds, by their keys.
pub uninterp spec fn lfmap_entries(map: LockfreeMap<Vec<u8>, Vec<u8>>) -> Map<
    Seq<u8>,
    Seq<u8>,
>;

/// The keys that an iterator over a lock-free map has yet to yield, in
/// the order in which it yields them.
pub uninterp spec fn lfmap_iter_keys(iter: LockfreeIter<Vec<u8>, Vec<u8>>) -> Seq<Seq<u8>>;

/// `lockfree::map::Map::new`: a map that holds nothing.
#[verifier::external_body]
fn lfmap_new() -> (fresh: LockfreeMap<Vec<u8>, Vec<u8>>)
    ensures
        lfmap_entries(fresh) == (Map::<Seq<u8>, Seq<u8>>::empty()),
{
    LockfreeMap::new()
}

/// `lockfree::map::Map::get`: a copy of the value stored under `key`, or
/// `None` where the map holds no such key.
#[verifier::external_body]
fn lfmap_get(map: &LockfreeMap<Vec<u8>, Vec<u8>>, key: &[u8]) -> (value: Option<Vec<u8>>)
    ensures
        optional_view(value) == lfmap_entries(*map).get(key@),
{
    map.get(key).map(|entry| entry.val().clone())
}

/// `lockfree::map::Map::insert`: `key` is stored with `value`, in place of
/// any value it had; the other keys keep theirs.
#[verifier::external_body]
fn lfmap_insert(map: &mut LockfreeMap<Vec<u8>, Vec<u8>>, key: &[u8], value: &[u8])
    ensures
        lfmap_entries(*final(map)) == lfmap_entries(*old(map)).insert(key@, value@),
{
    let _ = map.insert(key.to_vec(), value.to_vec());
}

/// `lockfree::map::Map::remove`: `key` and its value leave the map; the
/// other keys keep theirs.
#[verifier::external_body]
fn lfmap_remove(map: &mut LockfreeMap<Vec<u8>, Vec<u8>>, key: &[u8])
    ensures
        lfmap_entries(*final(map)) == lfmap_entries(*old(map)).remove(key@),
{
    let _ = map.remove(key);
}

/// `lockfree::map::Map::iter`: an iterator that yields each entry of the
/// map once, while nothing else changes the map; the order is that of the
/// map's tables.
#[verifier::external_body]
fn lfmap_iter<'map>(map: &'map LockfreeMap<Vec<u8>, Vec<u8>>) -> (iter: LockfreeIter<
    'map,
    Vec<u8>,
    Vec<u8>,
>)
    ensures
        lfmap_iter_keys(iter).no_duplicates(),
        lfmap_iter_keys(iter).to_set() == lfmap_entries(*map).dom(),
{
    map.iter()
}

/// `Iterator::next` of `lockfree::map::Iter`: a copy of the key of the
/// next entry, or `None` where the iterator has yielded them all.
#[verifier::external_body]
fn lfmap_iter_next(iter: &mut LockfreeIter<Vec<u8>, Vec<u8>>) -> (key: Option<Vec<u8>>)
    ensures
        match key {
            Some(key) => lfmap_iter_keys(*old(iter)).len() > 0 && key@ == lfmap_iter_keys(
                *old(iter),
            )[0] && lfmap_iter_keys(*final(iter)) == lfmap_iter_keys(*old(iter)).skip(1),
            None => lfmap_iter_keys(*old(iter)).len() == 0 && lfmap_iter_keys(*final(iter))
                == lfmap_iter_keys(*old(iter)),
        },
{
    iter.next().map(|entry| entry.key().clone())
}

/// A store that keeps its keys and values in a lock-free map.
pub struct LFMapStorage {
    map: LockfreeMap<Vec<u8>, Vec<u8>>,
}

impl LFMapStorage {
    /// A store that holds nothing.
    pub fn new() -> (storage: Self)
        ensures
            storage.contents() == Map::<Seq<u8>, Seq<u8>>::empty(),
    {
        Self { map: lfmap_new() }
    }
}

impl KeyValueStorage for LFMapStorage {
    closed spec fn contents(&self) -> Map<Seq<u8>, Seq<u8>> {
        lfmap_entries(self.map)
    }

    fn get(&self, key: &[u8]) -> (value: Option<Vec<u8>>) {
        lfmap_get(&self.map, key)
    }

    fn put(&mut self, key: &[u8], value: &[u8]) {
        lfmap_insert(&mut self.map, key, value);
    }

    fn delete(&mut self, key: &[u8]) {
        lfmap_remove(&mut self.map, key);
    }

    fn keys(&self) -> (keys: Vec<Vec<u8>>) {
        let mut keys: Vec<Vec<u8>> = Vec::new();
        let mut iter = lfmap_iter(&self.map);
        let ghost all = lfmap_iter_keys(iter);
        loop
            invariant
                key_views(keys@) + lfmap_iter_keys(iter) == all,
            ensures
                key_views(keys@) == all,
            decreases lfmap_iter_keys(iter).len(),
        {
            let item = lfmap_iter_next(&mut iter);
            match item {
                None => {
                    break ;
                },
                Some(key) => {
                    let ghost before = key_views(keys@);
                    keys.push(key);
                    assert(key_views(keys@) == before.push(key@));
                },
            }
        }
        keys
    }
}

} // verus!
