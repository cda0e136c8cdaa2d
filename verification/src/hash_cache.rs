//! The BLAKE3 hash cache held in memory: entries keyed by a file's path,
//! modification time and size, the entries not yet written to the journal,
//! and the flags that decide how the cache is persisted.
//!
//! Reading and writing the cache files is done by the caller, which hands
//! the loaded entries to [`HashCache::with_mode`] and follows
//! [`HashCache::persist_plan`] when saving.

use crate::paths::{compare_keys, components, Component, PathKey, PathOrder};
use crate::types::{Blake3Hash, CacheKey};
use vstd::prelude::*;

verus! {

/// How a cache reads and writes its backing store.
#[derive(Debug, Clone, Copy, PartialEq, Eq, Structural)]
pub enum CacheMode {
    /// Read existing entries and record new ones (default).
    ReadWrite,
    /// Read existing entries but never add new ones or write to disk.
    ReadOnly,
    /// Read and write nothing; every lookup misses.
    Disabled,
}

/// Model of a cache key: path components, modification time and size.
pub type KeyModel = (Seq<Component>, i128, u64);

/// The model of a cache key.
pub open spec fn key_model(k: CacheKey) -> KeyModel {
    (components(k.path@), k.modified, k.size)
}

/// The model of cache entries.
pub open spec fn entries_view(v: Seq<(CacheKey, Blake3Hash)>) -> Seq<(KeyModel, [u8; 32])> {
    v.map_values(|p: (CacheKey, Blake3Hash)| (key_model(p.0), p.1.0))
}

/// Index of the last entry with key `k`, or -1.
pub open spec fn last_index(v: Seq<(KeyModel, [u8; 32])>, k: KeyModel) -> int
    decreases v.len(),
{
    if v.len() == 0 {
        -1
    } else if v.last().0 == k {
        v.len() - 1
    } else {
        last_index(v.drop_last(), k)
    }
}

/// The hash stored under `k`, if any.
pub open spec fn stored(v: Seq<(KeyModel, [u8; 32])>, k: KeyModel) -> Option<[u8; 32]> {
    if last_index(v, k) >= 0 {
        Some(v[last_index(v, k)].1)
    } else {
        None
    }
}

/// `v` with `k` mapped to `h`: its entry replaced when present, else
/// appended.
pub open spec fn stored_with(v: Seq<(KeyModel, [u8; 32])>, k: KeyModel, h: [u8; 32]) -> Seq<(KeyModel, [u8; 32])> {
    if last_index(v, k) >= 0 {
        v.update(last_index(v, k), (k, h))
    } else {
        v.push((k, h))
    }
}

/// The elements of `v` whose flag in `keep` is set, in order.
pub open spec fn kept<A>(v: Seq<A>, keep: Seq<bool>) -> Seq<A>
    decreases v.len(),
{
    if v.len() == 0 || keep.len() == 0 {
        Seq::empty()
    } else if keep.last() {
        kept(v.drop_last(), keep.drop_last()).push(v.last())
    } else {
        kept(v.drop_last(), keep.drop_last())
    }
}

/// `last_index` names the last entry with the key.
pub proof fn lemma_last_index(v: Seq<(KeyModel, [u8; 32])>, k: KeyModel)
    ensures
        -1 <= last_index(v, k) < v.len(),
        last_index(v, k) >= 0 ==> v[last_index(v, k)].0 == k,
        forall|j: int| last_index(v, k) < j < v.len() ==> #[trigger] v[j].0 != k,
    decreases v.len(),
{
    if v.len() > 0 && v.last().0 != k {
        lemma_last_index(v.drop_last(), k);
        assert forall|j: int| last_index(v, k) < j < v.len() implies #[trigger] v[j].0 != k by {
            if j < v.len() - 1 {
                assert(v[j] == v.drop_last()[j]);
            }
        }
    }
}

/// A lookup after appending an entry.
proof fn lemma_stored_push(v: Seq<(KeyModel, [u8; 32])>, x: (KeyModel, [u8; 32]), q: KeyModel)
    ensures
        stored(v.push(x), q) == if x.0 == q {
            Some(x.1)
        } else {
            stored(v, q)
        },
{
    let w = v.push(x);
    assert(w.drop_last() =~= v);
    lemma_last_index(v, q);
    if x.0 != q && last_index(v, q) >= 0 {
        assert(w[last_index(v, q)] == v[last_index(v, q)]);
    }
}

/// Replacing the hash of an entry keeps where every key is found.
proof fn lemma_last_index_update(v: Seq<(KeyModel, [u8; 32])>, i: int, h: [u8; 32], q: KeyModel)
    requires
        0 <= i < v.len(),
    ensures
        last_index(v.update(i, (v[i].0, h)), q) == last_index(v, q),
    decreases v.len(),
{
    let w = v.update(i, (v[i].0, h));
    if i < v.len() - 1 {
        assert(w.drop_last() =~= v.drop_last().update(i, (v[i].0, h)));
        assert(w.last() == v.last());
        lemma_last_index_update(v.drop_last(), i, h, q);
    } else {
        assert(w.drop_last() =~= v.drop_last());
    }
}

/// What persisting has to write.
#[derive(Debug, Clone, Copy, PartialEq, Eq, Structural)]
pub enum PersistPlan {
    /// Nothing to write.
    Skip,
    /// Write every entry as a new snapshot and drop the journal.
    Snapshot,
    /// Append the pending entries to the journal.
    AppendPending,
}

/// In-memory BLAKE3 hash cache.
pub struct HashCache {
    cache_dir: String,
    mode: CacheMode,
    entries: Vec<(CacheKey, Blake3Hash)>,
    /// Entries not yet appended to the journal.
    pending: Vec<(CacheKey, Blake3Hash)>,
    /// Set whenever a new entry is recorded.
    dirty: bool,
    /// Set when only a snapshot can represent the contents.
    compact: bool,
}

/// A copy of a cache key.
fn copy_key(k: &CacheKey) -> (res: CacheKey)
    ensures
        res.path@ == k.path@,
        res.modified == k.modified,
        res.size == k.size,
{
    CacheKey {
        path: crate::text::string_from_chars(crate::text::chars_of(k.path.as_str()).as_slice()),
        modified: k.modified,
        size: k.size,
    }
}

/// Whether two keys name the same file version.
fn same_key(a: &CacheKey, b: &CacheKey) -> (res: bool)
    ensures
        res == (key_model(*a) == key_model(*b)),
{
    if a.modified != b.modified || a.size != b.size {
        return false;
    }
    compare_keys(&PathKey::of(a.path.as_str()), &PathKey::of(b.path.as_str())) == PathOrder::Equal
}

/// Index of the last entry of `v` whose key names the same file version as `k`.
fn find_last(v: &Vec<(CacheKey, Blake3Hash)>, k: &CacheKey) -> (res: Option<usize>)
    ensures
        match res {
            Some(i) => i as int == last_index(entries_view(v@), key_model(*k)),
            None => last_index(entries_view(v@), key_model(*k)) == -1,
        },
{
    let ghost orig = entries_view(v@);
    let mut i = v.len();
    assert(orig.take(i as int) =~= orig);
    while i > 0
        invariant
            i <= v@.len(),
            orig == entries_view(v@),
            last_index(orig, key_model(*k)) == last_index(orig.take(i as int), key_model(*k)),
        decreases i,
    {
        let ghost t = orig.take(i as int);
        assert(t.drop_last() =~= orig.take(i - 1));
        assert(t.last() == orig[i - 1]);
        if same_key(&v[i - 1].0, k) {
            return Some(i - 1);
        }
        i -= 1;
    }
    assert(orig.take(0) =~= Seq::<(KeyModel, [u8; 32])>::empty());
    None
}

/// Maps `k` to `h` in `v`, replacing the entry with an equal key.
fn store(v: &mut Vec<(CacheKey, Blake3Hash)>, k: &CacheKey, h: Blake3Hash)
    ensures
        entries_view(final(v)@) == stored_with(entries_view(old(v)@), key_model(*k), h.0),
{
    let ghost orig = entries_view(v@);
    let nk = copy_key(k);
    match find_last(v, k) {
        Some(i) => {
            proof {
                lemma_last_index(orig, key_model(*k));
            }
            v.set(i, (nk, h));
            assert(entries_view(v@) =~= orig.update(i as int, (key_model(*k), h.0)));
        },
        None => {
            v.push((nk, h));
            assert(entries_view(v@) =~= orig.push((key_model(*k), h.0)));
        },
    }
}

impl HashCache {
    /// A disabled cache holds no entry.
    #[verifier::type_invariant]
    spec fn disabled_holds_nothing(&self) -> bool {
        self.mode == CacheMode::Disabled ==> self.entries@.len() == 0
    }

    /// The mode of the cache.
    pub closed spec fn cache_mode(&self) -> CacheMode {
        self.mode
    }

    /// The mode of the cache.
    pub fn mode(&self) -> (res: CacheMode)
        ensures
            res == self.cache_mode(),
    {
        self.mode
    }

    /// The directory of the cache files.
    pub closed spec fn dir(&self) -> Seq<char> {
        self.cache_dir@
    }

    /// The cached entries.
    pub closed spec fn contents(&self) -> Seq<(KeyModel, [u8; 32])> {
        entries_view(self.entries@)
    }

    /// The entries recorded since the last write to the journal.
    pub closed spec fn pending_contents(&self) -> Seq<(KeyModel, [u8; 32])> {
        entries_view(self.pending@)
    }

    /// Whether something was recorded since the last persist.
    pub closed spec fn is_dirty(&self) -> bool {
        self.dirty
    }

    /// Whether the next persist must write a snapshot.
    pub closed spec fn needs_snapshot(&self) -> bool {
        self.compact
    }

    /// A read-write cache in `cache_dir` holding the loaded entries, where
    /// later entries win over earlier ones with an equal key.
    pub fn new(cache_dir: String, loaded: Vec<(CacheKey, Blake3Hash)>, journal_needs_compaction: bool) -> (res: Self)
        ensures
            res.cache_mode() == CacheMode::ReadWrite,
            res.dir() == cache_dir@,
            forall|k: KeyModel| stored(res.contents(), k) == stored(entries_view(loaded@), k),
            res.pending_contents().len() == 0,
            !res.is_dirty(),
            res.needs_snapshot() == journal_needs_compaction,
            in_step(entries_view(loaded@), res),
    {
        let res = Self::with_mode(cache_dir, CacheMode::ReadWrite, loaded, journal_needs_compaction);
        assert(entries_view(loaded@) + res.pending_contents() =~= entries_view(loaded@));
        res
    }

    /// A cache that reads and writes nothing.
    pub fn disabled() -> (res: Self)
        ensures
            res.cache_mode() == CacheMode::Disabled,
            res.dir().len() == 0,
            res.contents().len() == 0,
            res.pending_contents().len() == 0,
            !res.is_dirty(),
            !res.needs_snapshot(),
    {
        let res = HashCache {
            cache_dir: String::new(),
            mode: CacheMode::Disabled,
            entries: Vec::new(),
            pending: Vec::new(),
            dirty: false,
            compact: false,
        };
        assert(res.contents() =~= Seq::<(KeyModel, [u8; 32])>::empty());
        assert(res.pending_contents() =~= Seq::<(KeyModel, [u8; 32])>::empty());
        res
    }

    /// A cache in the given mode holding the loaded entries (later entries
    /// win over earlier ones with an equal key); a disabled cache holds
    /// nothing.
    pub fn with_mode(
        cache_dir: String,
        mode: CacheMode,
        loaded: Vec<(CacheKey, Blake3Hash)>,
        journal_needs_compaction: bool,
    ) -> (res: Self)
        ensures
            mode == CacheMode::Disabled ==> res.cache_mode() == CacheMode::Disabled && res.dir().len() == 0
                && res.contents().len() == 0 && !res.needs_snapshot(),
            mode != CacheMode::Disabled ==> res.cache_mode() == mode && res.dir() == cache_dir@
                && res.needs_snapshot() == journal_needs_compaction
                && forall|k: KeyModel| stored(res.contents(), k) == stored(entries_view(loaded@), k),
            res.pending_contents().len() == 0,
            !res.is_dirty(),
    {
        if mode == CacheMode::Disabled {
            return Self::disabled();
        }
        let mut entries: Vec<(CacheKey, Blake3Hash)> = Vec::new();
        let ghost lv = entries_view(loaded@);
        let n = loaded.len();
        for m in 0..n
            invariant
                n == loaded@.len(),
                lv == entries_view(loaded@),
                forall|k: KeyModel| stored(entries_view(entries@), k) == stored(lv.take(m as int), k),
        {
            let ghost before = entries_view(entries@);
            store(&mut entries, &loaded[m].0, loaded[m].1);
            proof {
                assert(lv.take(m + 1).drop_last() =~= lv.take(m as int));
                assert(lv.take(m + 1).last() == (key_model(loaded@[m as int].0), loaded@[m as int].1.0));
                assert forall|k: KeyModel| stored(entries_view(entries@), k) == stored(lv.take(m + 1), k) by {
                    lemma_stored_after_store(before, key_model(loaded@[m as int].0), loaded@[m as int].1.0, k);
                    assert(lv.take(m + 1) =~= lv.take(m as int).push(lv[m as int]));
                    lemma_stored_push(lv.take(m as int), lv[m as int], k);
                }
            }
        }
        assert(lv.take(n as int) =~= lv);
        let res = HashCache {
            cache_dir,
            mode,
            entries,
            pending: Vec::new(),
            dirty: false,
            compact: journal_needs_compaction,
        };
        assert(res.pending_contents() =~= Seq::<(KeyModel, [u8; 32])>::empty());
        res
    }

    /// The cached hash for a file version; always `None` when disabled.
    pub fn get(&self, key: &CacheKey) -> (res: Option<Blake3Hash>)
        ensures
            self.cache_mode() == CacheMode::Disabled ==> res is None,
            self.cache_mode() != CacheMode::Disabled ==> match res {
                Some(h) => stored(self.contents(), key_model(*key)) == Some(h.0),
                None => stored(self.contents(), key_model(*key)) is None,
            },
    {
        if self.mode == CacheMode::Disabled {
            return None;
        }
        match find_last(&self.entries, key) {
            Some(i) => {
                proof {
                    lemma_last_index(self.contents(), key_model(*key));
                }
                Some(self.entries[i].1)
            },
            None => None,
        }
    }

    /// Store a hash; does nothing unless the cache is read-write.
    pub fn put(&mut self, key: CacheKey, hash: Blake3Hash)
        ensures
            final(self).cache_mode() == old(self).cache_mode(),
            final(self).dir() == old(self).dir(),
            old(self).cache_mode() != CacheMode::ReadWrite ==> final(self).contents() == old(self).contents()
                && final(self).pending_contents() == old(self).pending_contents()
                && final(self).is_dirty() == old(self).is_dirty(),
            old(self).cache_mode() == CacheMode::ReadWrite ==> final(self).contents() == stored_with(
                old(self).contents(),
                key_model(key),
                hash.0,
            ) && final(self).pending_contents() == stored_with(
                old(self).pending_contents(),
                key_model(key),
                hash.0,
            ) && final(self).is_dirty(),
            final(self).needs_snapshot() == old(self).needs_snapshot(),
            forall|disk: Seq<(KeyModel, [u8; 32])>| in_step(disk, *old(self)) ==> #[trigger] in_step(disk, *final(self)),
    {
        let ghost before = *self;
        if self.mode != CacheMode::ReadWrite {
            return;
        }
        let mut entries: Vec<(CacheKey, Blake3Hash)> = Vec::new();
        let mut pending: Vec<(CacheKey, Blake3Hash)> = Vec::new();
        std::mem::swap(&mut entries, &mut self.entries);
        std::mem::swap(&mut pending, &mut self.pending);
        store(&mut entries, &key, hash);
        store(&mut pending, &key, hash);
        self.entries = entries;
        self.pending = pending;
        self.dirty = true;
        proof {
            assert forall|disk: Seq<(KeyModel, [u8; 32])>| in_step(disk, before) implies #[trigger] in_step(disk, *self) by {
                if !self.needs_snapshot() {
                    lemma_journal_after_store(disk, before.pending_contents(), before.contents(), key_model(key), hash.0);
                }
            }
        }
    }

    /// Clear all cache entries; the next persist writes a snapshot.
    pub fn clear(&mut self)
        ensures
            final(self).cache_mode() == old(self).cache_mode(),
            final(self).dir() == old(self).dir(),
            final(self).contents().len() == 0,
            final(self).pending_contents().len() == 0,
            final(self).needs_snapshot(),
            final(self).is_dirty(),
            forall|disk: Seq<(KeyModel, [u8; 32])>| #[trigger] in_step(disk, *final(self)),
    {
        self.entries = Vec::new();
        self.pending = Vec::new();
        self.compact = true;
        self.dirty = true;
        assert(self.contents() =~= Seq::<(KeyModel, [u8; 32])>::empty());
        assert(self.pending_contents() =~= Seq::<(KeyModel, [u8; 32])>::empty());
    }

    /// Number of cached entries.
    pub fn len(&self) -> (res: usize)
        ensures
            res == self.contents().len(),
            self.cache_mode() == CacheMode::Disabled ==> res == 0,
    {
        proof {
            use_type_invariant(self);
        }
        self.entries.len()
    }

    /// Whether the cache holds no entry.
    pub fn is_empty(&self) -> (res: bool)
        ensures
            res == (self.contents().len() == 0),
    {
        self.len() == 0
    }

    /// What persisting writes, as a model.
    pub open spec fn plan_of(&self, journal_too_large: bool) -> PersistPlan {
        if self.cache_mode() != CacheMode::ReadWrite || !self.is_dirty() {
            PersistPlan::Skip
        } else if self.needs_snapshot() || journal_too_large {
            PersistPlan::Snapshot
        } else {
            PersistPlan::AppendPending
        }
    }

    /// What persisting writes: nothing unless the cache is read-write and
    /// something was recorded; a snapshot when one is needed or the journal
    /// has grown too large; else the pending entries appended to the journal.
    pub fn persist_plan(&self, journal_too_large: bool) -> (res: PersistPlan)
        ensures
            res == self.plan_of(journal_too_large),
    {
        if self.mode != CacheMode::ReadWrite || !self.dirty {
            PersistPlan::Skip
        } else if self.compact || journal_too_large {
            PersistPlan::Snapshot
        } else {
            PersistPlan::AppendPending
        }
    }

    /// Keeps the entries whose file still exists (`exists[i]` for entry `i`);
    /// dropping any of them makes the next persist write a snapshot.
    pub fn prune(&mut self, exists: &Vec<bool>)
        requires
            exists@.len() == old(self).contents().len(),
        ensures
            final(self).contents() == kept(old(self).contents(), exists@),
            final(self).pending_contents() == old(self).pending_contents(),
            final(self).cache_mode() == old(self).cache_mode(),
            final(self).dir() == old(self).dir(),
            final(self).is_dirty() == old(self).is_dirty(),
            final(self).needs_snapshot() == (old(self).needs_snapshot() || exists|j: int| 0 <= j < exists@.len() && !#[trigger] exists@[j]),
            forall|disk: Seq<(KeyModel, [u8; 32])>| in_step(disk, *old(self)) ==> #[trigger] in_step(disk, *final(self)),
    {
        proof {
            use_type_invariant(&*self);
        }
        let mut kept_entries: Vec<(CacheKey, Blake3Hash)> = Vec::new();
        let n = self.entries.len();
        let mut pruned = false;
        let ghost v = self.contents();
        for i in 0..n
            invariant
                n == self.entries@.len(),
                exists@.len() == n,
                v == entries_view(self.entries@),
                entries_view(kept_entries@) == kept(v.take(i as int), exists@.take(i as int)),
                pruned == (exists|j: int| 0 <= j < i && !#[trigger] exists@[j]),
        {
            assert(v.take(i + 1) =~= v.take(i as int).push(v[i as int]));
            assert(exists@.take(i + 1) =~= exists@.take(i as int).push(exists@[i as int]));
            if exists[i] {
                let k = copy_key(&self.entries[i].0);
                let h = self.entries[i].1;
                kept_entries.push((k, h));
                assert(key_model(k) == key_model(self.entries@[i as int].0));
            } else {
                pruned = true;
            }
            proof {
                assert(v.take(i + 1).drop_last() =~= v.take(i as int));
                assert(exists@.take(i + 1).drop_last() =~= exists@.take(i as int));
                if !exists@[i as int] {
                    assert(!exists@[i as int]);
                }
            }
        }
        assert(v.take(n as int) =~= v);
        assert(exists@.take(n as int) =~= exists@);
        assert(self.mode == CacheMode::Disabled ==> kept_entries@.len() == 0) by {
            if self.mode == CacheMode::Disabled {
                assert(v =~= Seq::<(KeyModel, [u8; 32])>::empty());
                assert(kept(v, exists@) =~= Seq::<(KeyModel, [u8; 32])>::empty());
                assert(entries_view(kept_entries@).len() == kept_entries@.len());
            }
        }
        self.entries = kept_entries;
        if pruned {
            self.compact = true;
        } else {
            proof {
                lemma_kept_all(v, exists@);
            }
        }
    }

    /// Records that the plan was written: the journal holds nothing pending,
    /// a snapshot clears the need for one, and nothing is dirty.
    pub fn mark_persisted(&mut self, plan: PersistPlan)
        ensures
            final(self).contents() == old(self).contents(),
            final(self).cache_mode() == old(self).cache_mode(),
            final(self).dir() == old(self).dir(),
            plan == PersistPlan::Skip ==> final(self).pending_contents() == old(self).pending_contents()
                && final(self).needs_snapshot() == old(self).needs_snapshot()
                && final(self).is_dirty() == old(self).is_dirty(),
            plan == PersistPlan::Snapshot ==> final(self).pending_contents().len() == 0
                && !final(self).needs_snapshot() && !final(self).is_dirty(),
            plan == PersistPlan::AppendPending ==> final(self).pending_contents().len() == 0
                && final(self).needs_snapshot() == old(self).needs_snapshot() && !final(self).is_dirty(),
            forall|disk: Seq<(KeyModel, [u8; 32])>| in_step(disk, *old(self)) ==> #[trigger] in_step(written(disk, *old(self), plan), *final(self)),
    {
        proof {
            use_type_invariant(&*self);
        }
        let ghost before = *self;
        match plan {
            PersistPlan::Skip => {},
            PersistPlan::Snapshot => {
                self.pending = Vec::new();
                self.compact = false;
                self.dirty = false;
            },
            PersistPlan::AppendPending => {
                self.pending = Vec::new();
                self.dirty = false;
            },
        }
        assert(plan != PersistPlan::Skip ==> self.pending_contents() =~= Seq::<(KeyModel, [u8; 32])>::empty());
        proof {
            assert forall|disk: Seq<(KeyModel, [u8; 32])>| in_step(disk, before) implies #[trigger] in_step(
                written(disk, before, plan),
                *self,
            ) by {
                if plan == PersistPlan::Snapshot {
                    assert(before.contents() + self.pending_contents() =~= before.contents());
                } else if plan == PersistPlan::AppendPending {
                    assert(disk + before.pending_contents() + self.pending_contents() =~= disk + before.pending_contents());
                }
            }
        }
    }

    /// A copy of the cached entries, to be written as a snapshot.
    pub fn snapshot(&self) -> (res: Vec<(CacheKey, Blake3Hash)>)
        ensures
            entries_view(res@) == self.contents(),
    {
        copy_entries(&self.entries)
    }

    /// A copy of the pending entries, to be appended to the journal.
    pub fn pending_entries(&self) -> (res: Vec<(CacheKey, Blake3Hash)>)
        ensures
            entries_view(res@) == self.pending_contents(),
    {
        copy_entries(&self.pending)
    }
}

/// A copy of cache entries.
fn copy_entries(v: &Vec<(CacheKey, Blake3Hash)>) -> (res: Vec<(CacheKey, Blake3Hash)>)
    ensures
        entries_view(res@) == entries_view(v@),
{
    let mut out: Vec<(CacheKey, Blake3Hash)> = Vec::new();
    let n = v.len();
    for i in 0..n
        invariant
            n == v@.len(),
            entries_view(out@) == entries_view(v@).take(i as int),
    {
        let ghost before = entries_view(out@);
        let k = copy_key(&v[i].0);
        let h = v[i].1;
        out.push((k, h));
        assert(key_model(k) == key_model(v@[i as int].0));
        assert(entries_view(out@) =~= before.push((key_model(k), h.0)));
        assert(entries_view(v@)[i as int] == (key_model(v@[i as int].0), v@[i as int].1.0));
        assert(entries_view(v@).take(i + 1) =~= entries_view(v@).take(i as int).push(entries_view(v@)[i as int]));
    }
    assert(entries_view(v@).take(n as int) =~= entries_view(v@));
    out
}

/// Lookups after storing `k`: `k` gives `h`, other keys what they gave.
pub proof fn lemma_stored_after_store(v: Seq<(KeyModel, [u8; 32])>, k: KeyModel, h: [u8; 32], q: KeyModel)
    ensures
        stored(stored_with(v, k, h), q) == if q == k {
            Some(h)
        } else {
            stored(v, q)
        },
{
    lemma_last_index(v, k);
    lemma_last_index(v, q);
    let li = last_index(v, k);
    if li >= 0 {
        let w = v.update(li, (k, h));
        assert(w == v.update(li, (v[li].0, h)));
        lemma_last_index_update(v, li, h, q);
        lemma_last_index_update(v, li, h, k);
        let lq = last_index(v, q);
        if q != k && lq >= 0 {
            assert(lq != li);
            assert(w[lq] == v[lq]);
        }
    } else {
        lemma_stored_push(v, (k, h), q);
    }
}

/// What a read gives back of a write: after storing `h` under `k` in a
/// read-write cache, looking `k` up gives `h`, and every other key gives
/// what it gave before.
pub proof fn lemma_get_after_put(v: Seq<(KeyModel, [u8; 32])>, k: KeyModel, h: [u8; 32], q: KeyModel)
    ensures
        stored(stored_with(v, k, h), k) == Some(h),
        q != k ==> stored(stored_with(v, k, h), q) == stored(v, q),
{
    lemma_stored_after_store(v, k, h, k);
    lemma_stored_after_store(v, k, h, q);
}


/// A read-write cache just cleared persists as a snapshot of no entry, and
/// a cache loaded from that snapshot holds nothing.
pub proof fn lemma_cleared_cache_persists_empty(c: HashCache, journal_too_large: bool, reloaded: HashCache, k: KeyModel)
    requires
        c.cache_mode() == CacheMode::ReadWrite,
        c.contents().len() == 0,
        c.needs_snapshot(),
        c.is_dirty(),
        forall|q: KeyModel| stored(reloaded.contents(), q) == stored(c.contents(), q),
    ensures
        c.plan_of(journal_too_large) == PersistPlan::Snapshot,
        stored(reloaded.contents(), k) is None,
{
}


/// What persisting with `plan` leaves on disk, where `disk` is what was
/// there (snapshot entries, then journal records): nothing new when
/// skipping, the cache's entries as a snapshot, or the pending entries
/// appended to the journal.
pub open spec fn written(disk: Seq<(KeyModel, [u8; 32])>, c: HashCache, plan: PersistPlan) -> Seq<(KeyModel, [u8; 32])> {
    match plan {
        PersistPlan::Skip => disk,
        PersistPlan::Snapshot => c.contents(),
        PersistPlan::AppendPending => disk + c.pending_contents(),
    }
}

/// The cache is in step with what is on disk: reloading the disk's entries
/// followed by the pending ones gives every lookup of the cache, unless the
/// cache must write a snapshot anyway.
pub open spec fn in_step(disk: Seq<(KeyModel, [u8; 32])>, c: HashCache) -> bool {
    c.needs_snapshot() || forall|q: KeyModel| #[trigger] stored(disk + c.pending_contents(), q) == stored(c.contents(), q)
}

/// A lookup in entries put one after the other: the later ones win.
proof fn lemma_stored_concat(a: Seq<(KeyModel, [u8; 32])>, b: Seq<(KeyModel, [u8; 32])>, q: KeyModel)
    ensures
        stored(a + b, q) == match stored(b, q) {
            Some(h) => Some(h),
            None => stored(a, q),
        },
    decreases b.len(),
{
    if b.len() == 0 {
        assert(a + b =~= a);
        assert(last_index(b, q) == -1);
    } else {
        lemma_stored_concat(a, b.drop_last(), q);
        assert(a + b =~= (a + b.drop_last()).push(b.last()));
        assert(b =~= b.drop_last().push(b.last()));
        lemma_stored_push(a + b.drop_last(), b.last(), q);
        lemma_stored_push(b.drop_last(), b.last(), q);
    }
}

/// Storing an entry in both the cache and its pending entries keeps the
/// cache in step with the disk.
proof fn lemma_journal_after_store(
    disk: Seq<(KeyModel, [u8; 32])>,
    pending: Seq<(KeyModel, [u8; 32])>,
    contents: Seq<(KeyModel, [u8; 32])>,
    k: KeyModel,
    h: [u8; 32],
)
    requires
        forall|q: KeyModel| #[trigger] stored(disk + pending, q) == stored(contents, q),
    ensures
        forall|q: KeyModel| #[trigger] stored(disk + stored_with(pending, k, h), q) == stored(stored_with(contents, k, h), q),
{
    assert forall|q: KeyModel| #[trigger] stored(disk + stored_with(pending, k, h), q) == stored(stored_with(contents, k, h), q) by {
        lemma_stored_concat(disk, stored_with(pending, k, h), q);
        lemma_stored_concat(disk, pending, q);
        lemma_stored_after_store(pending, k, h, q);
        lemma_stored_after_store(contents, k, h, q);
        assert(stored(disk + pending, q) == stored(contents, q));
    }
}

/// Keeping every element keeps the sequence.
proof fn lemma_kept_all<A>(v: Seq<A>, keep: Seq<bool>)
    requires
        keep.len() == v.len(),
        forall|j: int| 0 <= j < keep.len() ==> #[trigger] keep[j],
    ensures
        kept(v, keep) == v,
    decreases v.len(),
{
    if v.len() > 0 {
        assert(keep.last() == keep[keep.len() - 1]);
        assert forall|j: int| 0 <= j < keep.drop_last().len() implies #[trigger] keep.drop_last()[j] by {
            assert(keep.drop_last()[j] == keep[j]);
        }
        lemma_kept_all(v.drop_last(), keep.drop_last());
        assert(v.drop_last().push(v.last()) =~= v);
    } else {
        assert(v =~= Seq::<A>::empty());
    }
}

/// Persisting then reloading gives the cache back: for a read-write cache
/// in step with its disk that has something to write, what persisting
/// leaves on disk reloads to every lookup of the cache.
pub proof fn lemma_persist_then_reload(c: HashCache, disk: Seq<(KeyModel, [u8; 32])>, journal_too_large: bool, q: KeyModel)
    requires
        in_step(disk, c),
        c.plan_of(journal_too_large) != PersistPlan::Skip,
    ensures
        stored(written(disk, c, c.plan_of(journal_too_large)), q) == stored(c.contents(), q),
{
}

} // verus!
