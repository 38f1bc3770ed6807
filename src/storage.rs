//! The file-backed store: an in-memory map, the backing file's path, and the
//! two timestamps that synchronization status is decided from. Reading and
//! writing the file itself is left to the caller, which hands over file
//! content and modification times.
use vstd::prelude::*;
use crate::entries::{distinct_keys, entries_map, find_entry, has_key, lemma_entry_in_map, lemma_remove_entry, upsert};
use crate::error::{ErrorKind, StorageError};
use crate::sync::{status_of, sync_status, SyncStatus, Timestamp};
use crate::value::{Monoid, StorageValue};

verus! {

/// The format version that this library reads and writes.
pub const STORAGE_VERSION: i32 = 3;

/// The persisted shape of a store: a format version and the entries.
#[derive(Debug)]
pub struct FileStorageData<V> {
    pub version: i32,
    pub entries: Vec<(String, V)>,
}

impl<V> FileStorageData<V> {
    pub open spec fn wf(&self) -> bool {
        distinct_keys(self.entries@)
    }

    pub open spec fn map(&self) -> Map<Seq<char>, V> {
        entries_map(self.entries@)
    }

    /// An envelope of the current version with no entries.
    pub fn empty() -> (r: FileStorageData<V>)
        ensures
            r.wf(),
            r.version == STORAGE_VERSION,
            r.map() == Map::<Seq<char>, V>::empty(),
    {
        let r = FileStorageData { version: STORAGE_VERSION, entries: Vec::new() };
        assert(r.map() =~= Map::<Seq<char>, V>::empty());
        r
    }
}

/// The map that merging `b` into `a` yields: keys of either side, with
/// `combine` applied where both sides hold the key.
pub open spec fn merged<V: Monoid>(a: Map<Seq<char>, V>, b: Map<Seq<char>, V>) -> Map<Seq<char>, V> {
    Map::new(
        |k: Seq<char>| a.contains_key(k) || b.contains_key(k),
        |k: Seq<char>|
            if a.contains_key(k) && b.contains_key(k) {
                V::combine_spec(a[k], b[k])
            } else if a.contains_key(k) {
                a[k]
            } else {
                b[k]
            },
    )
}

/// With a commutative `combine`, merging `b` into `a` gives the same map as
/// merging `a` into `b`.
pub proof fn lemma_merge_commutative<V: Monoid>(a: Map<Seq<char>, V>, b: Map<Seq<char>, V>)
    requires
        forall|x: V, y: V| #[trigger] V::combine_spec(x, y) == V::combine_spec(y, x),
    ensures
        merged(a, b) == merged(b, a),
{
    assert forall|k: Seq<char>| #[trigger] merged(a, b).contains_key(k) implies merged(a, b)[k] == merged(b, a)[k] by {
        if a.contains_key(k) && b.contains_key(k) {
            assert(V::combine_spec(a[k], b[k]) == V::combine_spec(b[k], a[k]));
        }
    }
    assert(merged(a, b) =~= merged(b, a));
}

/// With an associative and idempotent `combine`, merging the same map a
/// second time changes nothing.
pub proof fn lemma_merge_idempotent<V: Monoid>(a: Map<Seq<char>, V>, b: Map<Seq<char>, V>)
    requires
        forall|x: V| #[trigger] V::combine_spec(x, x) == x,
        forall|x: V, y: V, z: V|
            #[trigger] V::combine_spec(V::combine_spec(x, y), z) == V::combine_spec(x, V::combine_spec(y, z)),
    ensures
        merged(merged(a, b), b) == merged(a, b),
{
    let m = merged(a, b);
    assert forall|k: Seq<char>| #[trigger] merged(m, b).contains_key(k) implies merged(m, b)[k] == m[k] by {
        if b.contains_key(k) {
            if a.contains_key(k) {
                assert(V::combine_spec(V::combine_spec(a[k], b[k]), b[k])
                    == V::combine_spec(a[k], V::combine_spec(b[k], b[k])));
            } else {
                assert(V::combine_spec(b[k], b[k]) == b[k]);
            }
        }
    }
    assert(merged(m, b) =~= m);
}

/// A key-value store persisted to one file.
pub struct FileStorage<V> {
    label: String,
    path: String,
    modified: Timestamp,
    written_to_disk: Timestamp,
    data: FileStorageData<V>,
}

impl<V: StorageValue> FileStorage<V> {
    pub closed spec fn wf(&self) -> bool {
        self.data.wf()
    }

    /// The entries held in memory.
    pub closed spec fn entries(&self) -> Map<Seq<char>, V> {
        self.data.map()
    }

    pub closed spec fn label_spec(&self) -> Seq<char> {
        self.label@
    }

    pub closed spec fn path_spec(&self) -> Seq<char> {
        self.path@
    }

    /// Time of the latest change in memory.
    pub closed spec fn modified_at(&self) -> Timestamp {
        self.modified
    }

    /// The file's modification time after the latest flush or load.
    pub closed spec fn flushed_at(&self) -> Timestamp {
        self.written_to_disk
    }

    /// The format version of the envelope held in memory.
    pub closed spec fn version_spec(&self) -> i32 {
        self.data.version
    }

    /// An empty store for the file at `path`, created at time `now`.
    pub fn new(label: String, path: String, now: Timestamp) -> (r: FileStorage<V>)
        ensures
            r.wf(),
            r.label_spec() == label@,
            r.path_spec() == path@,
            r.entries() == Map::<Seq<char>, V>::empty(),
            r.modified_at() == now,
            r.flushed_at() == now,
            r.version_spec() == STORAGE_VERSION,
    {
        FileStorage { label, path, modified: now, written_to_disk: now, data: FileStorageData::empty() }
    }

    pub fn label(&self) -> (r: &String)
        ensures
            r@ == self.label_spec(),
    {
        &self.label
    }

    pub fn path(&self) -> (r: &String)
        ensures
            r@ == self.path_spec(),
    {
        &self.path
    }

    pub fn modified(&self) -> (r: Timestamp)
        ensures
            r == self.modified_at(),
    {
        self.modified
    }

    pub fn flushed(&self) -> (r: Timestamp)
        ensures
            r == self.flushed_at(),
    {
        self.written_to_disk
    }

    /// The entries in memory.
    pub fn as_ref(&self) -> (r: &Vec<(String, V)>)
        requires
            self.wf(),
        ensures
            distinct_keys(r@),
            entries_map(r@) == self.entries(),
    {
        &self.data.entries
    }

    /// The value under `key`, if any.
    pub fn get(&self, key: &String) -> (r: Option<&V>)
        requires
            self.wf(),
        ensures
            r is Some == self.entries().contains_key(key@),
            r matches Some(v) ==> *v == self.entries()[key@],
    {
        match find_entry(&self.data.entries, key) {
            Some(i) => {
                proof {
                    lemma_entry_in_map(self.data.entries@, i as int);
                }
                Some(&self.data.entries[i].1)
            },
            None => None,
        }
    }

    /// Number of entries.
    pub fn len(&self) -> (r: usize)
        requires
            self.wf(),
        ensures
            r == self.entries().len(),
    {
        proof {
            self.lemma_len();
        }
        self.data.entries.len()
    }

    proof fn lemma_len(&self)
        requires
            self.wf(),
        ensures
            self.entries().len() == self.data.entries@.len(),
            self.entries().dom().finite(),
    {
        let s = self.data.entries@;
        let keys = s.map_values(|e: (String, V)| e.0@);
        assert forall|i: int, j: int| 0 <= i < keys.len() && 0 <= j < keys.len() && i != j implies keys[i] != keys[j] by {
            assert(s[i].0@ != s[j].0@);
        }
        assert(keys.no_duplicates());
        keys.unique_seq_to_set();
        assert forall|k: Seq<char>| #[trigger] self.entries().dom().contains(k) <==> keys.to_set().contains(k) by {
            if has_key(s, k) {
                let i = choose|i: int| 0 <= i < s.len() && #[trigger] s[i].0@ == k;
                assert(keys[i] == k);
            }
            if keys.to_set().contains(k) {
                let i = choose|i: int| 0 <= i < keys.len() && keys[i] == k;
                assert(s[i].0@ == k);
            }
        }
        assert(self.entries().dom() =~= keys.to_set());
    }

    /// Inserts or replaces the value under `key`; `now` becomes the modification time.
    pub fn set(&mut self, key: String, value: V, now: Timestamp)
        requires
            old(self).wf(),
        ensures
            final(self).wf(),
            final(self).entries() == old(self).entries().insert(key@, value),
            final(self).modified_at() == now,
            final(self).flushed_at() == old(self).flushed_at(),
            final(self).label_spec() == old(self).label_spec(),
            final(self).path_spec() == old(self).path_spec(),
            final(self).version_spec() == old(self).version_spec(),
    {
        upsert(&mut self.data.entries, key, value);
        self.modified = now;
    }

    /// Removes the entry under `key`; fails with `KeyNotFound` when there is none.
    pub fn remove(&mut self, key: &String, now: Timestamp) -> (r: Result<(), StorageError>)
        requires
            old(self).wf(),
        ensures
            final(self).wf(),
            final(self).label_spec() == old(self).label_spec(),
            final(self).path_spec() == old(self).path_spec(),
            final(self).flushed_at() == old(self).flushed_at(),
            final(self).version_spec() == old(self).version_spec(),
            r is Ok == old(self).entries().contains_key(key@),
            r is Ok ==> final(self).entries() == old(self).entries().remove(key@)
                && final(self).modified_at() == now,
            r matches Err(e) ==> e.kind == ErrorKind::KeyNotFound && e.label@ == old(self).label_spec()
                && final(self).entries() == old(self).entries()
                && final(self).modified_at() == old(self).modified_at(),
    {
        match find_entry(&self.data.entries, key) {
            Some(i) => {
                proof {
                    lemma_remove_entry(self.data.entries@, i as int);
                    lemma_entry_in_map(self.data.entries@, i as int);
                }
                self.data.entries.remove(i);
                self.modified = now;
                Ok(())
            },
            None => Err(StorageError::new(&self.label, ErrorKind::KeyNotFound)),
        }
    }

    /// What must happen to synchronize, given the file's current modification time.
    pub fn needs_syncing(&self, file_updated: Timestamp) -> (r: SyncStatus)
        ensures
            r == status_of(self.modified_at() as int, self.flushed_at() as int, file_updated as int),
    {
        sync_status(self.modified, self.written_to_disk, file_updated)
    }

    /// Replaces the in-memory envelope with one read from the file, whose
    /// modification time is `file_updated`.
    pub fn replace_data(&mut self, data: FileStorageData<V>, file_updated: Timestamp)
        requires
            data.wf(),
        ensures
            final(self).wf(),
            final(self).entries() == data.map(),
            final(self).version_spec() == data.version,
            final(self).modified_at() == file_updated,
            final(self).flushed_at() == file_updated,
            final(self).label_spec() == old(self).label_spec(),
            final(self).path_spec() == old(self).path_spec(),
    {
        self.data = data;
        self.modified = file_updated;
        self.written_to_disk = file_updated;
    }

    /// Records a write of the current format whose file now has modification
    /// time `file_updated`. Fails, changing nothing, when that time equals the
    /// one of the previous flush: the update would be invisible.
    pub fn record_flush(&mut self, file_updated: Timestamp) -> (r: Result<(), StorageError>)
        requires
            old(self).wf(),
        ensures
            final(self).wf(),
            final(self).entries() == old(self).entries(),
            final(self).label_spec() == old(self).label_spec(),
            final(self).path_spec() == old(self).path_spec(),
            r is Ok == (file_updated != old(self).flushed_at()),
            r is Ok ==> final(self).modified_at() == file_updated
                && final(self).flushed_at() == file_updated
                && final(self).version_spec() == STORAGE_VERSION,
            r matches Err(e) ==> e.kind == ErrorKind::TimestampNotUpdated
                && e.label@ == old(self).label_spec()
                && *final(self) == *old(self),
    {
        if file_updated == self.written_to_disk {
            return Err(StorageError::new(&self.label, ErrorKind::TimestampNotUpdated));
        }
        self.data.version = STORAGE_VERSION;
        self.modified = file_updated;
        self.written_to_disk = file_updated;
        Ok(())
    }
}

impl<V: StorageValue + Monoid> FileStorage<V> {
    /// Merges the entries of `other` into this store: keys missing here are
    /// taken over, keys present on both sides get `combine(here, there)`.
    /// `now` becomes the modification time.
    pub fn merge_from(&mut self, other: &FileStorage<V>, now: Timestamp)
        requires
            old(self).wf(),
            other.wf(),
        ensures
            final(self).wf(),
            final(self).entries() == merged(old(self).entries(), other.entries()),
            final(self).modified_at() == now,
            final(self).flushed_at() == old(self).flushed_at(),
            final(self).label_spec() == old(self).label_spec(),
            final(self).path_spec() == old(self).path_spec(),
            final(self).version_spec() == old(self).version_spec(),
    {
        let ghost start = self.entries();
        let src = &other.data.entries;
        let n = src.len();
        let mut j: usize = 0;
        while j < n
            invariant
                n == src@.len(),
                j <= n,
                distinct_keys(src@),
                self.wf(),
                self.entries() == merged(start, entries_map(src@.subrange(0, j as int))),
                self.flushed_at() == old(self).flushed_at(),
                self.label_spec() == old(self).label_spec(),
                self.path_spec() == old(self).path_spec(),
                self.version_spec() == old(self).version_spec(),
            decreases n - j,
        {
            let ghost before = self.entries();
            let ghost prefix = src@.subrange(0, j as int);
            let ghost next = src@.subrange(0, j + 1);
            let key = src[j].0.clone();
            let incoming = &src[j].1;
            let value = match self.get(&key) {
                Some(existing) => V::combine(existing, incoming),
                None => incoming.duplicate(),
            };
            proof {
                assert(next =~= prefix.push(src@[j as int]));
                assert forall|i: int| 0 <= i < prefix.len() implies #[trigger] prefix[i].0@ != key@ by {
                    assert(prefix[i] == src@[i]);
                }
                assert(!has_key(prefix, key@));
                assert forall|a: int, b: int|
                    0 <= a < prefix.len() && 0 <= b < prefix.len() && a != b implies #[trigger] prefix[a].0@ != #[trigger] prefix[b].0@ by {
                    assert(prefix[a] == src@[a]);
                    assert(prefix[b] == src@[b]);
                }
                crate::entries::lemma_push_entry(prefix, src@[j as int].0, src@[j as int].1);
                assert(merged(start, entries_map(next)) =~= before.insert(key@, value));
            }
            self.set(key, value, now);
            j = j + 1;
        }
        assert(src@.subrange(0, n as int) =~= src@);
        self.modified = now;
    }
}

} // verus!
