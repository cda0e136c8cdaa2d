use rcompare::file_operations::{CopyStart, CopyStep, FileOperation, FileOperations};
use rcompare::types::{Blake3Hash, FileEntry};

fn entry(path: &str, modified: i128) -> FileEntry {
    FileEntry { path: path.to_string(), size: 1, modified, is_dir: false }
}

#[test]
fn copies_begin_by_mode() {
    assert_eq!(FileOperations::new(true, false).copy_start(), CopyStart::DryRun);
    assert_eq!(FileOperations::new(false, false).copy_start(), CopyStart::Copy);
    assert_eq!(
        FileOperations::with_verification(false, false, true, 3).copy_start(),
        CopyStart::HashSourceThenCopy
    );
    assert_eq!(FileOperations::with_verification(true, false, true, 3).copy_start(), CopyStart::DryRun);
}

#[test]
fn dry_run_reports_success_without_work() {
    let r = FileOperations::dry_run_result(FileOperation::Copy, "a.txt", Some("b.txt"));
    assert!(r.success);
    assert_eq!(r.source, "a.txt");
    assert_eq!(r.destination.as_deref(), Some("b.txt"));
    assert_eq!(r.bytes_processed, 0);
    assert!(!r.verified);
    assert!(r.error.is_none());
}

#[test]
fn unverified_copy_is_done_at_once() {
    let ops = FileOperations::new(false, false);
    match ops.after_copy("s", "d", 12, None, 0) {
        CopyStep::Done(r) => {
            assert!(r.success);
            assert_eq!(r.bytes_processed, 12);
            assert!(!r.verified);
            assert!(r.source_hash.is_none() && r.dest_hash.is_none());
            assert_eq!(r.retries, 0);
        }
        CopyStep::Retry(_) => panic!("an unverified copy is not retried"),
    }
}

#[test]
fn verified_copy_retries_then_gives_up() {
    let ops = FileOperations::with_verification(false, false, true, 3);
    let good = Blake3Hash([7u8; 32]);
    let bad = Blake3Hash([9u8; 32]);
    match ops.after_copy("s", "d", 5, Some((good, good)), 2) {
        CopyStep::Done(r) => {
            assert!(r.success && r.verified);
            assert_eq!(r.retries, 2);
            assert_eq!(r.source_hash, Some(good));
            assert_eq!(r.dest_hash, Some(good));
        }
        CopyStep::Retry(_) => panic!("matching hashes end the copy"),
    }
    assert!(matches!(ops.after_copy("s", "d", 5, Some((good, bad)), 0), CopyStep::Retry(1)));
    assert!(matches!(ops.after_copy("s", "d", 5, Some((good, bad)), 1), CopyStep::Retry(2)));
    match ops.after_copy("s", "d", 5, Some((good, bad)), 2) {
        CopyStep::Done(r) => {
            assert!(!r.success && !r.verified);
            assert_eq!(r.retries, 3);
            let expected = format!(
                "Hash mismatch after {} retries (source: {:?}, dest: {:?})",
                3,
                Some(good),
                Some(bad)
            );
            assert_eq!(r.error.as_deref(), Some(expected.as_str()));
        }
        CopyStep::Retry(_) => panic!("the retry limit was reached"),
    }
}

#[test]
fn verified_copy_without_retries_fails_on_first_mismatch() {
    let ops = FileOperations::with_verification(false, false, true, 0);
    let r = match ops.after_copy("s", "d", 1, Some((Blake3Hash([0u8; 32]), Blake3Hash([1u8; 32]))), 0) {
        CopyStep::Done(r) => r,
        CopyStep::Retry(_) => panic!("no retries are allowed"),
    };
    assert!(!r.success);
    assert_eq!(r.retries, 1);
}

#[test]
fn only_cross_device_renames_fall_back() {
    assert!(FileOperations::is_cross_device(Some(18)));
    assert!(!FileOperations::is_cross_device(Some(2)));
    assert!(!FileOperations::is_cross_device(None));
}

#[test]
fn operation_results_carry_their_inputs() {
    let m = FileOperations::moved("a", "b", 40);
    assert_eq!((m.operation, m.bytes_processed, m.success), (FileOperation::Move, 40, true));
    let d = FileOperations::deleted("a", 3);
    assert_eq!((d.operation, d.destination.clone(), d.bytes_processed), (FileOperation::Delete, None, 3));
    let t = FileOperations::touched("a", "b");
    assert_eq!((t.operation, t.destination.as_deref()), (FileOperation::TouchTimestamp, Some("b")));
    let f = FileOperations::failed(FileOperation::Copy, "a", Some("b"), "IO error: gone");
    assert!(!f.success);
    assert_eq!(f.error.as_deref(), Some("IO error: gone"));
}

#[test]
fn hash_buffer_grows_for_large_files() {
    assert_eq!(FileOperations::hash_buffer_size(10 * 1024 * 1024), 64 * 1024);
    assert_eq!(FileOperations::hash_buffer_size(10 * 1024 * 1024 + 1), 1024 * 1024);
}

#[test]
fn bidirectional_sync_copies_newer_and_missing() {
    let files = vec![
        (entry("new_left.txt", 20), Some(entry("new_left.txt", 10))),
        (entry("new_right.txt", 10), Some(entry("new_right.txt", 30))),
        (entry("same_age.txt", 5), Some(entry("same_age.txt", 5))),
        (entry("only_left.txt", 1), None),
    ];
    let plan = FileOperations::plan_bidirectional(&files);
    let got: Vec<(bool, &str, &str)> = plan.iter().map(|c| (c.from_left, c.source.as_str(), c.dest.as_str())).collect();
    assert_eq!(
        got,
        vec![
            (true, "new_left.txt", "new_left.txt"),
            (false, "new_right.txt", "new_right.txt"),
            (true, "only_left.txt", "only_left.txt"),
        ]
    );
}
