use rcompare::hash_cache::{CacheMode, HashCache, PersistPlan};
use rcompare::types::{Blake3Hash, CacheKey};

const NOW: i128 = 1_700_000_000_000_000_000;

#[test]
fn test_hash_cache_basic() {
    let mut cache = HashCache::new("cache_dir".to_string(), Vec::new(), false);

    let key = CacheKey { path: "test.txt".to_string(), modified: NOW, size: 100 };
    let hash = Blake3Hash([1; 32]);

    assert!(cache.get(&key).is_none());

    cache.put(key.clone(), hash);
    assert_eq!(cache.get(&key), Some(hash));
    assert_eq!(cache.len(), 1);
}

#[test]
fn test_hash_cache_disabled_mode_never_caches() {
    let mut cache = HashCache::disabled();
    let key = CacheKey { path: "/nonexistent/anything.txt".to_string(), modified: NOW, size: 42 };
    cache.put(key.clone(), Blake3Hash([4; 32]));
    assert!(cache.get(&key).is_none());
    assert_eq!(cache.len(), 0);
}

#[test]
fn persist_plan_skips_clean_cache_and_appends_new_entries() {
    let mut cache = HashCache::new("cache_dir".to_string(), Vec::new(), false);
    assert_eq!(cache.persist_plan(false), PersistPlan::Skip);
    let key = CacheKey { path: "a.txt".to_string(), modified: NOW, size: 1 };
    cache.put(key, Blake3Hash([2; 32]));
    assert_eq!(cache.persist_plan(false), PersistPlan::AppendPending);
    assert_eq!(cache.persist_plan(true), PersistPlan::Snapshot);
    assert_eq!(cache.pending_entries().len(), 1);
    cache.mark_persisted(PersistPlan::AppendPending);
    assert_eq!(cache.persist_plan(false), PersistPlan::Skip);
    assert!(cache.pending_entries().is_empty());
}

#[test]
fn prune_drops_missing_files_and_forces_snapshot() {
    let key = CacheKey { path: "gone.txt".to_string(), modified: NOW, size: 100 };
    let mut cache = HashCache::new("cache".to_string(), vec![(key.clone(), Blake3Hash([3; 32]))], false);
    assert_eq!(cache.len(), 1);
    cache.prune(&vec![false]);
    assert_eq!(cache.len(), 0);
    assert!(cache.get(&key).is_none());
}

#[test]
fn read_only_cache_reads_but_does_not_store() {
    let key = CacheKey { path: "test.txt".to_string(), modified: NOW, size: 100 };
    let other = CacheKey { path: "other.txt".to_string(), modified: NOW, size: 7 };
    let mut cache = HashCache::with_mode("cache".to_string(), CacheMode::ReadOnly, vec![(key.clone(), Blake3Hash([5; 32]))], false);
    assert_eq!(cache.get(&key), Some(Blake3Hash([5; 32])));
    cache.put(other.clone(), Blake3Hash([6; 32]));
    assert!(cache.get(&other).is_none());
    assert_eq!(cache.persist_plan(false), PersistPlan::Skip);
}

#[test]
fn later_loaded_entry_wins() {
    let key = CacheKey { path: "dup.txt".to_string(), modified: NOW, size: 3 };
    let cache = HashCache::new(
        "cache".to_string(),
        vec![(key.clone(), Blake3Hash([1; 32])), (key.clone(), Blake3Hash([9; 32]))],
        false,
    );
    assert_eq!(cache.get(&key), Some(Blake3Hash([9; 32])));
}

#[test]
fn test_hash_cache_persist_prunes_missing_files() {
    let key = CacheKey { path: "gone.txt".to_string(), modified: NOW, size: 100 };
    let mut cache = HashCache::new("cache".to_string(), Vec::new(), false);
    cache.put(key.clone(), Blake3Hash([3; 32]));
    assert_eq!(cache.len(), 1);

    // Persisting first drops the entries of files that no longer exist.
    cache.prune(&vec![false]);
    assert_eq!(cache.len(), 0);
    let plan = cache.persist_plan(false);
    assert_eq!(plan, PersistPlan::Snapshot);
    let written = cache.snapshot();
    cache.mark_persisted(plan);

    let cache = HashCache::new("cache".to_string(), written, false);
    assert!(cache.get(&key).is_none());
    assert_eq!(cache.len(), 0);
}

#[test]
fn test_hash_cache_persist_skips_write_when_not_dirty() {
    let cache = HashCache::new("cache".to_string(), Vec::new(), false);
    // Nothing was recorded, so persisting writes nothing at all.
    assert_eq!(cache.persist_plan(false), PersistPlan::Skip);
}

#[test]
fn cleared_cache_persists_as_an_empty_snapshot() {
    let key = CacheKey { path: "a.txt".to_string(), modified: NOW, size: 1 };
    let mut cache = HashCache::new("cache".to_string(), vec![(key.clone(), Blake3Hash([1; 32]))], false);
    cache.clear();
    assert_eq!(cache.persist_plan(false), PersistPlan::Snapshot);
    let written = cache.snapshot();
    assert!(written.is_empty());
    let reloaded = HashCache::new("cache".to_string(), written, false);
    assert!(reloaded.get(&key).is_none());
}

#[test]
fn persisting_then_reloading_gives_the_cache_back() {
    let a = CacheKey { path: "a.txt".to_string(), modified: NOW, size: 1 };
    let b = CacheKey { path: "b.txt".to_string(), modified: NOW, size: 2 };
    let on_disk = vec![(a.clone(), Blake3Hash([1; 32]))];
    let mut cache = HashCache::new("cache".to_string(), on_disk.clone(), false);
    cache.put(a.clone(), Blake3Hash([9; 32]));
    cache.put(b.clone(), Blake3Hash([2; 32]));
    let plan = cache.persist_plan(false);
    assert_eq!(plan, PersistPlan::AppendPending);
    let mut written = on_disk;
    written.extend(cache.pending_entries());
    cache.mark_persisted(plan);
    let reloaded = HashCache::new("cache".to_string(), written, false);
    assert_eq!(reloaded.get(&a), Some(Blake3Hash([9; 32])));
    assert_eq!(reloaded.get(&b), Some(Blake3Hash([2; 32])));
    assert_eq!(reloaded.len(), 2);
}
