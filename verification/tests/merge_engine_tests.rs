use rcompare::merge_engine::MergeEngine;
use rcompare::types::{ConflictType, FileEntry, MergeResolution, MergeSource};

/// A fixed modification time, in nanoseconds since the Unix epoch.
const NOW: i128 = 1_700_000_000_000_000_000;
const SECOND: i128 = 1_000_000_000;
fn create_file_entry(size: u64, modified: i128) -> FileEntry {
    FileEntry {
        path: String::new(),
        size,
        modified,
        is_dir: false,
    }
}

fn create_dir_entry() -> FileEntry {
    FileEntry {
        path: String::new(),
        size: 0,
        modified: NOW,
        is_dir: true,
    }
}

#[test]
fn test_no_changes() {
    let engine = MergeEngine::new();
    let path = String::from("file.txt");

    let entry = create_file_entry(100, NOW);

    let mut base = Vec::new();
    let mut left = Vec::new();
    let mut right = Vec::new();

    base.push((path.clone(), entry.clone()));
    left.push((path.clone(), entry.clone()));
    right.push((path.clone(), entry.clone()));

    let results = engine.merge(&base, &left, &right).unwrap();

    assert_eq!(results.len(), 1);
    assert_eq!(results[0].resolution, MergeResolution::UseBase);
    assert!(results[0].conflict.is_none());
}

#[test]
fn test_left_only_modified() {
    let engine = MergeEngine::new();
    let path = String::from("file.txt");

    let now = NOW;
    let later = now + 60 * SECOND;

    let base_entry = create_file_entry(100, now);
    let left_entry = create_file_entry(200, later); // Different size
    let right_entry = base_entry.clone();

    let mut base = Vec::new();
    let mut left = Vec::new();
    let mut right = Vec::new();

    base.push((path.clone(), base_entry));
    left.push((path.clone(), left_entry));
    right.push((path.clone(), right_entry));

    let results = engine.merge(&base, &left, &right).unwrap();

    assert_eq!(results.len(), 1);
    assert_eq!(results[0].resolution, MergeResolution::UseLeft);
    assert!(results[0].conflict.is_none());
    assert_eq!(results[0].resolved_source, Some(MergeSource::Left));
}

#[test]
fn test_right_only_modified() {
    let engine = MergeEngine::new();
    let path = String::from("file.txt");

    let now = NOW;
    let later = now + 60 * SECOND;

    let base_entry = create_file_entry(100, now);
    let left_entry = base_entry.clone();
    let right_entry = create_file_entry(200, later); // Different size

    let mut base = Vec::new();
    let mut left = Vec::new();
    let mut right = Vec::new();

    base.push((path.clone(), base_entry));
    left.push((path.clone(), left_entry));
    right.push((path.clone(), right_entry));

    let results = engine.merge(&base, &left, &right).unwrap();

    assert_eq!(results.len(), 1);
    assert_eq!(results[0].resolution, MergeResolution::UseRight);
    assert!(results[0].conflict.is_none());
    assert_eq!(results[0].resolved_source, Some(MergeSource::Right));
}

#[test]
fn test_both_modified_same_content() {
    let engine = MergeEngine::new();
    let path = String::from("file.txt");

    let now = NOW;
    let later = now + 60 * SECOND;

    let base_entry = create_file_entry(100, now);
    let modified_entry = create_file_entry(200, later); // Same modifications

    let mut base = Vec::new();
    let mut left = Vec::new();
    let mut right = Vec::new();

    base.push((path.clone(), base_entry));
    left.push((path.clone(), modified_entry.clone()));
    right.push((path.clone(), modified_entry));

    let results = engine.merge(&base, &left, &right).unwrap();

    assert_eq!(results.len(), 1);
    assert_eq!(results[0].resolution, MergeResolution::AutoMerged);
    assert!(results[0].conflict.is_none());
}

#[test]
fn test_both_modified_different_content() {
    let engine = MergeEngine::new();
    let path = String::from("file.txt");

    let now = NOW;
    let later1 = now + 60 * SECOND;
    let later2 = now + 120 * SECOND;

    let base_entry = create_file_entry(100, now);
    let left_entry = create_file_entry(200, later1); // Different modifications
    let right_entry = create_file_entry(300, later2); // Different modifications

    let mut base = Vec::new();
    let mut left = Vec::new();
    let mut right = Vec::new();

    base.push((path.clone(), base_entry));
    left.push((path.clone(), left_entry));
    right.push((path.clone(), right_entry));

    let results = engine.merge(&base, &left, &right).unwrap();

    assert_eq!(results.len(), 1);
    assert_eq!(results[0].resolution, MergeResolution::ManualRequired);
    assert!(results[0].conflict.is_some());
    assert_eq!(
        results[0].conflict.as_ref().unwrap().conflict_type,
        ConflictType::BothModified
    );
}

#[test]
fn test_both_added_same_content() {
    let engine = MergeEngine::new();
    let path = String::from("file.txt");

    let entry = create_file_entry(100, NOW);

    let base = Vec::new();
    let mut left = Vec::new();
    let mut right = Vec::new();

    left.push((path.clone(), entry.clone()));
    right.push((path.clone(), entry));

    let results = engine.merge(&base, &left, &right).unwrap();

    assert_eq!(results.len(), 1);
    assert_eq!(results[0].resolution, MergeResolution::AutoMerged);
    assert!(results[0].conflict.is_none());
}

#[test]
fn test_both_added_different_content() {
    let engine = MergeEngine::new();
    let path = String::from("file.txt");

    let now = NOW;
    let later = now + 60 * SECOND;

    let left_entry = create_file_entry(100, now);
    let right_entry = create_file_entry(200, later); // Different content

    let base = Vec::new();
    let mut left = Vec::new();
    let mut right = Vec::new();

    left.push((path.clone(), left_entry));
    right.push((path.clone(), right_entry));

    let results = engine.merge(&base, &left, &right).unwrap();

    assert_eq!(results.len(), 1);
    assert_eq!(results[0].resolution, MergeResolution::ManualRequired);
    assert!(results[0].conflict.is_some());
    assert_eq!(
        results[0].conflict.as_ref().unwrap().conflict_type,
        ConflictType::BothAdded
    );
}

#[test]
fn test_modify_delete_conflict() {
    let engine = MergeEngine::new();
    let path = String::from("file.txt");

    let now = NOW;
    let later = now + 60 * SECOND;

    let base_entry = create_file_entry(100, now);
    let left_entry = create_file_entry(200, later); // Modified

    let mut base = Vec::new();
    let mut left = Vec::new();
    let right = Vec::new();

    base.push((path.clone(), base_entry));
    left.push((path.clone(), left_entry));
    // right doesn't have the file (deleted)

    let results = engine.merge(&base, &left, &right).unwrap();

    assert_eq!(results.len(), 1);
    assert_eq!(results[0].resolution, MergeResolution::ManualRequired);
    assert!(results[0].conflict.is_some());
    assert_eq!(
        results[0].conflict.as_ref().unwrap().conflict_type,
        ConflictType::ModifyDelete
    );
}

#[test]
fn test_type_conflict() {
    let engine = MergeEngine::new();
    let path = String::from("file.txt");

    let base_entry = create_file_entry(100, NOW);
    let left_entry = create_dir_entry(); // Changed to directory
    let right_entry = base_entry.clone();

    let mut base = Vec::new();
    let mut left = Vec::new();
    let mut right = Vec::new();

    base.push((path.clone(), base_entry));
    left.push((path.clone(), left_entry));
    right.push((path.clone(), right_entry));

    let results = engine.merge(&base, &left, &right).unwrap();

    assert_eq!(results.len(), 1);
    assert_eq!(results[0].resolution, MergeResolution::ManualRequired);
    assert!(results[0].conflict.is_some());
    assert_eq!(
        results[0].conflict.as_ref().unwrap().conflict_type,
        ConflictType::TypeConflict
    );
}

#[test]
fn test_added_on_left_only() {
    let engine = MergeEngine::new();
    let path = String::from("file.txt");

    let entry = create_file_entry(100, NOW);

    let base = Vec::new();
    let mut left = Vec::new();
    let right = Vec::new();

    left.push((path.clone(), entry));

    let results = engine.merge(&base, &left, &right).unwrap();

    assert_eq!(results.len(), 1);
    assert_eq!(results[0].resolution, MergeResolution::UseLeft);
    assert!(results[0].conflict.is_none());
    assert_eq!(results[0].resolved_source, Some(MergeSource::Left));
}

#[test]
fn test_added_on_right_only() {
    let engine = MergeEngine::new();
    let path = String::from("file.txt");

    let entry = create_file_entry(100, NOW);

    let base = Vec::new();
    let left = Vec::new();
    let mut right = Vec::new();

    right.push((path.clone(), entry));

    let results = engine.merge(&base, &left, &right).unwrap();

    assert_eq!(results.len(), 1);
    assert_eq!(results[0].resolution, MergeResolution::UseRight);
    assert!(results[0].conflict.is_none());
    assert_eq!(results[0].resolved_source, Some(MergeSource::Right));
}

#[test]
fn test_both_deleted() {
    let engine = MergeEngine::new();
    let path = String::from("file.txt");

    let entry = create_file_entry(100, NOW);

    let mut base = Vec::new();
    let left = Vec::new();
    let right = Vec::new();

    base.push((path.clone(), entry));

    let results = engine.merge(&base, &left, &right).unwrap();

    assert_eq!(results.len(), 1);
    assert_eq!(results[0].resolution, MergeResolution::UseBase);
    assert!(results[0].conflict.is_none());
}
