use rcompare::comparison::ComparisonEngine;
use rcompare::hash_cache::HashCache;
use rcompare::types::{Blake3Hash, DiffStatus, FileEntry};

const NOW: i128 = 1_700_000_000_000_000_000;

#[test]
fn test_comparison_basic() {
    let cache = HashCache::new("cache_dir".to_string(), Vec::new(), false);
    let engine = ComparisonEngine::new(cache);

    let left = vec![FileEntry { path: "file1.txt".to_string(), size: 100, modified: NOW, is_dir: false }];

    let right = vec![FileEntry { path: "file2.txt".to_string(), size: 200, modified: NOW, is_dir: false }];

    let diff = engine.compare(left, right, Vec::new()).unwrap();
    assert_eq!(diff.len(), 2);
}

#[test]
fn comparison_orders_paths_and_marks_orphans() {
    let engine = ComparisonEngine::new(HashCache::disabled());
    let left = vec![
        FileEntry { path: "b.txt".to_string(), size: 1, modified: NOW, is_dir: false },
        FileEntry { path: "a.txt".to_string(), size: 1, modified: NOW, is_dir: false },
    ];
    let right = vec![FileEntry { path: "c.txt".to_string(), size: 1, modified: NOW, is_dir: false }];
    let diff = engine.compare(left, right, Vec::new()).unwrap();
    let paths: Vec<&str> = diff.iter().map(|n| n.relative_path.as_str()).collect();
    assert_eq!(paths, vec!["a.txt", "b.txt", "c.txt"]);
    assert_eq!(diff[0].status, DiffStatus::OrphanLeft);
    assert_eq!(diff[2].status, DiffStatus::OrphanRight);
}

#[test]
fn verify_files_compares_hashes() {
    let engine = ComparisonEngine::new(HashCache::disabled());
    assert!(engine.verify_files(&Blake3Hash([7; 32]), &Blake3Hash([7; 32])));
    assert!(!engine.verify_files(&Blake3Hash([7; 32]), &Blake3Hash([8; 32])));
}

#[test]
fn a_tree_compared_with_itself_is_all_same() {
    let engine = ComparisonEngine::new(HashCache::disabled());
    let tree = vec![
        FileEntry { path: "dir".to_string(), size: 0, modified: NOW, is_dir: true },
        FileEntry { path: "dir/a.txt".to_string(), size: 5, modified: NOW, is_dir: false },
        FileEntry { path: "b.bin".to_string(), size: 9, modified: NOW - 7, is_dir: false },
    ];
    let diff = engine.compare(tree.clone(), tree, Vec::new()).unwrap();
    assert_eq!(diff.len(), 3);
    assert!(diff.iter().all(|n| n.status == DiffStatus::Same));
}
