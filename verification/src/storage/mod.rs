//! The stores that back the database: what a store must offer, and the
//! stores at hand.

use vstd::prelude::*;
use vstd::slice::slice_to_vec;

use crate::types::optional_view;

pub mod lfmap;
pub mod lfset;

verus! {

/// The keys of a list as mathematical values.
pub open spec fn key_views(keys: Seq<Vec<u8>>) -> Seq<Seq<u8>> {
    keys.map_values(|key: Vec<u8>| key@)
}

/// A store of keys and their values.
pub trait KeyValueStorage {
    /// The values that the store holds, by their keys.
    spec fn contents(&self) -> Map<Seq<u8>, Seq<u8>>;

    /// The value of `key`, if the store holds one.
    fn get(&self, key: &[u8]) -> (value: Option<Vec<u8>>)
        ensures
            optional_view(value) == self.contents().get(key@),
    ;

    /// Gives `key` the value `value`.
    fn put(&mut self, key: &[u8], value: &[u8])
        ensures
            final(self).contents() == old(self).contents().insert(key@, value@),
    ;

    /// Removes `key` and its value; a key that the store does not hold is
    /// ignored.
    fn delete(&mut self, key: &[u8])
        ensures
            final(self).contents() == old(self).contents().remove(key@),
    ;

    /// The keys that the store holds, each once, in no particular order.
    fn keys(&self) -> (keys: Vec<Vec<u8>>)
        ensures
            key_views(keys@).no_duplicates(),
            key_views(keys@).to_set() == self.contents().dom(),
    ;
}

/// A key and its stable version.
pub struct StableStorageEntry {
    pub key: Vec<u8>,
    pub value: Vec<u8>,
}

/// Whether the entries at two different places have different keys.
pub open spec fn distinct_keys(entries: Seq<StableStorageEntry>) -> bool {
    forall|i: int, j: int|
        0 <= i < j < entries.len() ==> (#[trigger] entries[i]).key@ != (#[trigger] entries[j]).key@
}

/// Whether one of the entries has the key `key`.
pub open spec fn has_key(entries: Seq<StableStorageEntry>, key: Seq<u8>) -> bool {
    exists|i: int| 0 <= i < entries.len() && (#[trigger] entries[i]).key@ == key
}

/// The values of the entries, by their keys; of entries with one key the
/// first counts.
pub open spec fn entry_map(entries: Seq<StableStorageEntry>) -> Map<Seq<u8>, Seq<u8>> {
    Map::new(
        |key: Seq<u8>| has_key(entries, key),
        |key: Seq<u8>|
            entries[choose|i: int|
                0 <= i < entries.len() && (#[trigger] entries[i]).key@ == key && forall|j: int|
                    0 <= j < i ==> (#[trigger] entries[j]).key@ != key].value@,
    )
}

/// Among entries with distinct keys the value of a key is that of the
/// entry that has the key.
pub proof fn lemma_entry_map_at(entries: Seq<StableStorageEntry>, index: int)
    requires
        distinct_keys(entries),
        0 <= index < entries.len(),
    ensures
        entry_map(entries).contains_key(entries[index].key@),
        entry_map(entries)[entries[index].key@] == entries[index].value@,
{
    let key = entries[index].key@;
    assert(has_key(entries, key));
    let first = choose|i: int|
        0 <= i < entries.len() && (#[trigger] entries[i]).key@ == key && forall|j: int|
            0 <= j < i ==> (#[trigger] entries[j]).key@ != key;
    assert(0 <= index < entries.len() && entries[index].key@ == key && forall|j: int|
        0 <= j < index ==> (#[trigger] entries[j]).key@ != key);
    assert(first == index);
}

/// Whether two byte strings hold the same bytes.
fn same_bytes(a: &[u8], b: &[u8]) -> (same: bool)
    ensures
        same == (a@ == b@),
{
    if a.len() != b.len() {
        return false;
    }
    let mut i: usize = 0;
    while i < a.len()
        invariant
            a@.len() == b@.len(),
            i <= a@.len(),
            a@.subrange(0, i as int) == b@.subrange(0, i as int),
        decreases a.len() - i,
    {
        if a[i] != b[i] {
            assert(a@[i as int] != b@[i as int]);
            return false;
        }
        assert(a@.subrange(0, i + 1) == a@.subrange(0, i as int).push(a@[i as int]));
        assert(b@.subrange(0, i + 1) == b@.subrange(0, i as int).push(b@[i as int]));
        i = i + 1;
    }
    assert(a@.subrange(0, a@.len() as int) == a@);
    assert(b@.subrange(0, b@.len() as int) == b@);
    true
}

/// The place of the entry of `key` among `entries`, if there is one.
fn position_of(entries: &Vec<StableStorageEntry>, key: &[u8]) -> (place: Option<usize>)
    ensures
        match place {
            Some(i) => i < entries@.len() && entries@[i as int].key@ == key@,
            None => !has_key(entries@, key@),
        },
{
    let mut i: usize = 0;
    while i < entries.len()
        invariant
            i <= entries@.len(),
            forall|j: int| 0 <= j < i ==> (#[trigger] entries@[j]).key@ != key@,
        decreases entries.len() - i,
    {
        if same_bytes(entries[i].key.as_slice(), key) {
            return Some(i);
        }
        i = i + 1;
    }
    None
}

/// Giving the entry of a key another value gives the key that value and
/// leaves the other keys as they are.
proof fn lemma_entries_replace(
    entries: Seq<StableStorageEntry>,
    index: int,
    entry: StableStorageEntry,
)
    requires
        distinct_keys(entries),
        0 <= index < entries.len(),
        entries[index].key@ == entry.key@,
    ensures
        distinct_keys(entries.update(index, entry)),
        entry_map(entries.update(index, entry)) == entry_map(entries).insert(
            entry.key@,
            entry.value@,
        ),
{
    let after = entries.update(index, entry);
    assert(distinct_keys(after)) by {
        assert forall|i: int, j: int| 0 <= i < j < after.len() implies (#[trigger] after[i]).key@
            != (#[trigger] after[j]).key@ by {
            assert(after[i].key@ == entries[i].key@);
            assert(after[j].key@ == entries[j].key@);
        }
    }
    assert forall|key: Seq<u8>| has_key(after, key) <==> has_key(entries, key) by {
        if has_key(after, key) {
            let i = choose|i: int| 0 <= i < after.len() && (#[trigger] after[i]).key@ == key;
            assert(entries[i].key@ == key);
        }
        if has_key(entries, key) {
            let i = choose|i: int| 0 <= i < entries.len() && (#[trigger] entries[i]).key@ == key;
            assert(after[i].key@ == key);
        }
    }
    assert(has_key(entries, entry.key@)) by {
        assert(entries[index].key@ == entry.key@);
    }
    assert forall|key: Seq<u8>| has_key(after, key) implies #[trigger] entry_map(after)[key]
        == entry_map(entries).insert(entry.key@, entry.value@)[key] by {
        let i = choose|i: int| 0 <= i < after.len() && (#[trigger] after[i]).key@ == key;
        lemma_entry_map_at(after, i);
        assert(entries[i].key@ == key);
        lemma_entry_map_at(entries, i);
    }
    assert(entry_map(after) =~= entry_map(entries).insert(entry.key@, entry.value@));
}

/// Adding an entry with a new key gives the key its value and leaves the
/// other keys as they are.
proof fn lemma_entries_push(entries: Seq<StableStorageEntry>, entry: StableStorageEntry)
    requires
        distinct_keys(entries),
        !has_key(entries, entry.key@),
    ensures
        distinct_keys(entries.push(entry)),
        entry_map(entries.push(entry)) == entry_map(entries).insert(entry.key@, entry.value@),
{
    let after = entries.push(entry);
    assert(distinct_keys(after)) by {
        assert forall|i: int, j: int| 0 <= i < j < after.len() implies (#[trigger] after[i]).key@
            != (#[trigger] after[j]).key@ by {
            assert(after[i] == entries[i]);
            if j < entries.len() {
                assert(after[j] == entries[j]);
            }
        }
    }
    assert forall|key: Seq<u8>| has_key(after, key) <==> has_key(entries, key) || key
        == entry.key@ by {
        if has_key(after, key) {
            let i = choose|i: int| 0 <= i < after.len() && (#[trigger] after[i]).key@ == key;
            if i < entries.len() {
                assert(entries[i].key@ == key);
            }
        }
        if has_key(entries, key) {
            let i = choose|i: int| 0 <= i < entries.len() && (#[trigger] entries[i]).key@ == key;
            assert(after[i].key@ == key);
        }
        if key == entry.key@ {
            assert(after[after.len() - 1].key@ == key);
        }
    }
    assert forall|key: Seq<u8>| has_key(after, key) implies #[trigger] entry_map(after)[key]
        == entry_map(entries).insert(entry.key@, entry.value@)[key] by {
        let i = choose|i: int| 0 <= i < after.len() && (#[trigger] after[i]).key@ == key;
        lemma_entry_map_at(after, i);
        if i < entries.len() {
            assert(entries[i].key@ == key);
            lemma_entry_map_at(entries, i);
        }
    }
    assert(entry_map(after) =~= entry_map(entries).insert(entry.key@, entry.value@));
}

/// Taking the entry of a key away takes the key away and leaves the other
/// keys as they are.
#[verifier::rlimit(40)]
proof fn lemma_entries_remove(entries: Seq<StableStorageEntry>, index: int)
    requires
        distinct_keys(entries),
        0 <= index < entries.len(),
    ensures
        distinct_keys(entries.remove(index)),
        entry_map(entries.remove(index)) == entry_map(entries).remove(entries[index].key@),
{
    let after = entries.remove(index);
    let gone = entries[index].key@;
    assert forall|i: int| 0 <= i < after.len() implies #[trigger] after[i] == entries[if i
        < index {
        i
    } else {
        i + 1
    }] by {}
    assert(distinct_keys(after)) by {
        assert forall|i: int, j: int| 0 <= i < j < after.len() implies (#[trigger] after[i]).key@
            != (#[trigger] after[j]).key@ by {
            let a = if i < index {
                i
            } else {
                i + 1
            };
            let b = if j < index {
                j
            } else {
                j + 1
            };
            assert(after[i] == entries[a]);
            assert(after[j] == entries[b]);
        }
    }
    assert forall|key: Seq<u8>| has_key(after, key) <==> has_key(entries, key) && key
        != gone by {
        if has_key(after, key) {
            let i = choose|i: int| 0 <= i < after.len() && (#[trigger] after[i]).key@ == key;
            let a = if i < index {
                i
            } else {
                i + 1
            };
            assert(after[i] == entries[a]);
            assert(entries[a].key@ == key);
            assert(entries[index].key@ == gone);
        }
        if has_key(entries, key) && key != gone {
            let a = choose|a: int| 0 <= a < entries.len() && (#[trigger] entries[a]).key@ == key;
            let i = if a < index {
                a
            } else {
                a - 1
            };
            assert(after[i] == entries[a]);
            assert(after[i].key@ == key);
        }
    }
    assert forall|key: Seq<u8>| has_key(after, key) implies #[trigger] entry_map(after)[key]
        == entry_map(entries)[key] by {
        let i = choose|i: int| 0 <= i < after.len() && (#[trigger] after[i]).key@ == key;
        let a = if i < index {
            i
        } else {
            i + 1
        };
        assert(after[i] == entries[a]);
        lemma_entry_map_at(after, i);
        lemma_entry_map_at(entries, a);
    }
    assert(entry_map(after) =~= entry_map(entries).remove(gone));
}

/// A store of the stable versions: its entries in a list, each key once.
/// It is meant to stay small, and looks a key up by going through the
/// list.
pub struct StableStorage {
    stable_storage: Vec<StableStorageEntry>,
}

impl StableStorage {
    #[verifier::type_invariant]
    spec fn each_key_once(self) -> bool {
        distinct_keys(self.stable_storage@)
    }

    /// A store that holds nothing.
    pub fn new() -> (storage: Self)
        ensures
            storage.contents() == Map::<Seq<u8>, Seq<u8>>::empty(),
    {
        let storage = Self { stable_storage: Vec::new() };
        assert(storage.contents() =~= Map::empty());
        storage
    }
}

impl KeyValueStorage for StableStorage {
    closed spec fn contents(&self) -> Map<Seq<u8>, Seq<u8>> {
        entry_map(self.stable_storage@)
    }

    fn get(&self, key: &[u8]) -> (value: Option<Vec<u8>>) {
        proof {
            use_type_invariant(self);
        }
        match position_of(&self.stable_storage, key) {
            Some(i) => {
                proof {
                    lemma_entry_map_at(self.stable_storage@, i as int);
                }
                Some(slice_to_vec(self.stable_storage[i].value.as_slice()))
            },
            None => None,
        }
    }

    fn put(&mut self, key: &[u8], value: &[u8]) {
        proof {
            use_type_invariant(&*self);
        }
        let ghost before = self.stable_storage@;
        let entry = StableStorageEntry { key: slice_to_vec(key), value: slice_to_vec(value) };
        let mut entries: Vec<StableStorageEntry> = Vec::new();
        core::mem::swap(&mut self.stable_storage, &mut entries);
        match position_of(&entries, key) {
            Some(i) => {
                proof {
                    lemma_entries_replace(before, i as int, entry);
                }
                entries[i] = entry;
            },
            None => {
                proof {
                    lemma_entries_push(before, entry);
                }
                entries.push(entry);
            },
        }
        core::mem::swap(&mut self.stable_storage, &mut entries);
    }

    fn delete(&mut self, key: &[u8]) {
        proof {
            use_type_invariant(&*self);
        }
        let ghost before = self.stable_storage@;
        let mut entries: Vec<StableStorageEntry> = Vec::new();
        core::mem::swap(&mut self.stable_storage, &mut entries);
        match position_of(&entries, key) {
            Some(i) => {
                proof {
                    lemma_entries_remove(before, i as int);
                }
                let _ = entries.remove(i);
            },
            None => {
                assert(entry_map(before).remove(key@) =~= entry_map(before));
            },
        }
        core::mem::swap(&mut self.stable_storage, &mut entries);
    }

    fn keys(&self) -> (keys: Vec<Vec<u8>>) {
        proof {
            use_type_invariant(self);
        }
        let mut keys: Vec<Vec<u8>> = Vec::new();
        let mut i: usize = 0;
        while i < self.stable_storage.len()
            invariant
                i <= self.stable_storage@.len(),
                keys@.len() == i,
                forall|j: int| 0 <= j < i ==> (#[trigger] keys@[j])@ == self.stable_storage@[j].key@,
            decreases self.stable_storage.len() - i,
        {
            keys.push(slice_to_vec(self.stable_storage[i].key.as_slice()));
            i = i + 1;
        }
        proof {
            let views = key_views(keys@);
            let entries = self.stable_storage@;
            assert forall|a: int, b: int| 0 <= a < views.len() && 0 <= b < views.len() && a
                != b implies views[a] != views[b] by {
                assert(keys@[a]@ == entries[a].key@);
                assert(keys@[b]@ == entries[b].key@);
            }
            assert(views.to_set() =~= entry_map(entries).dom()) by {
                assert forall|key: Seq<u8>| views.to_set().contains(key) <==> has_key(
                    entries,
                    key,
                ) by {
                    if views.contains(key) {
                        let a = choose|a: int| 0 <= a < views.len() && views[a] == key;
                        assert(keys@[a]@ == entries[a].key@);
                    }
                    if has_key(entries, key) {
                        let a = choose|a: int| 0 <= a < entries.len() && (#[trigger] entries[a]).key@
                            == key;
                        assert(keys@[a]@ == entries[a].key@);
                        assert(views[a] == key);
                    }
                }
            }
        }
        keys
    }
}

} // verus!
