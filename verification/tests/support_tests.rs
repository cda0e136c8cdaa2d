use rcompare::cli::copy_paths::collect_copy_paths;
use rcompare::cli::scan_report::{should_show_entry, truncate_path, ScanResult};
use rcompare::progress::{ProgressCounters, ScanStage};
use rcompare::resumable_copy::{
    after_destination_check, after_destination_size, after_prefix_hash, checkpoint_due, checkpoint_file_name,
    finish_copy, needs_resumable, plan_resume, regular_copy_result, removes_old_destination, CopyCheckpoint,
    ResumeStep, CHECKPOINT_INTERVAL, RESUMABLE_THRESHOLD,
};
use rcompare::types::{ensure_config, AppConfig, Blake3Hash, DiffStatus, LoadedConfig};
use rcompare::vfs::VfsCapabilities;

fn checkpoint(total: u64, copied: u64, partial: u8) -> CopyCheckpoint {
    CopyCheckpoint {
        source: "src.bin".to_string(),
        destination: "dst.bin".to_string(),
        total_size: total,
        bytes_copied: copied,
        source_hash: Blake3Hash([0; 32]),
        partial_hash: Blake3Hash([partial; 32]),
        timestamp: 0,
    }
}

#[test]
fn small_files_are_copied_plainly() {
    assert!(!needs_resumable(RESUMABLE_THRESHOLD - 1));
    assert!(needs_resumable(RESUMABLE_THRESHOLD));
    let r = regular_copy_result(18, Blake3Hash([1; 32]), Blake3Hash([1; 32]));
    assert!(r.success && r.verified && !r.resumed);
    assert_eq!(r.bytes_copied, 18);
}

#[test]
fn resume_only_with_matching_checkpoint() {
    let fresh = ResumeStep::Decided { start: 0, checkpoint_valid: false };
    assert_eq!(plan_resume(100, &None), fresh);
    assert_eq!(plan_resume(100, &Some(checkpoint(99, 10, 1))), fresh);
    assert_eq!(plan_resume(100, &Some(checkpoint(100, 10, 1))), ResumeStep::CheckDestination);
    assert_eq!(after_destination_check(false), fresh);
    assert_eq!(after_destination_check(true), ResumeStep::ReadDestinationSize);
    let cp = checkpoint(100, 10, 1);
    assert_eq!(after_destination_size(&cp, 11), fresh);
    assert_eq!(after_destination_size(&cp, 10), ResumeStep::HashDestinationPrefix(10));
    assert_eq!(after_prefix_hash(&cp, &Blake3Hash([2; 32])), fresh);
    assert_eq!(after_prefix_hash(&cp, &Blake3Hash([1; 32])), ResumeStep::Decided { start: 10, checkpoint_valid: true });
    assert!(removes_old_destination(0, true));
    assert!(!removes_old_destination(10, true));
}

#[test]
fn checkpoints_are_written_every_interval() {
    assert!(!checkpoint_due(CHECKPOINT_INTERVAL - 1, 0));
    assert!(checkpoint_due(CHECKPOINT_INTERVAL + 5, 5));
}

#[test]
fn finished_copy_is_verified_by_hash() {
    let ok = finish_copy(7, true, Blake3Hash([3; 32]), Blake3Hash([3; 32]));
    assert!(ok.success && ok.verified && ok.resumed && ok.error.is_none());
    let bad = finish_copy(7, false, Blake3Hash([3; 32]), Blake3Hash([4; 32]));
    assert!(!bad.success && !bad.verified);
    assert_eq!(bad.error.as_deref(), Some("Hash verification failed"));
}

#[test]
fn checkpoint_names_hash_both_paths() {
    let name = checkpoint_file_name("/a/src.bin", "/b/dst.bin");
    let digest = blake3::hash("/a/src.bin->/b/dst.bin".as_bytes());
    let expected = format!("checkpoint_{}.json", hex::encode(&digest.as_bytes()[..16]));
    assert_eq!(name, expected);
    assert_ne!(name, checkpoint_file_name("/a/src.bin", "/b/other.bin"));
}

#[test]
fn hash_hex_is_lowercase() {
    let mut bytes = [0u8; 32];
    bytes[0] = 0xAB;
    bytes[31] = 0x01;
    let hex = Blake3Hash(bytes).to_hex();
    assert_eq!(hex.len(), 64);
    assert!(hex.starts_with("ab00"));
    assert!(hex.ends_with("01"));
}

#[test]
fn scan_result_exit_codes() {
    let clean = ScanResult { total: 3, identical: 3, different: 0, left_only: 0, right_only: 0, unchecked: 0 };
    assert!(!clean.has_differences());
    assert_eq!(clean.exit_code(), 0);
    let dirty = ScanResult { unchecked: 1, ..clean };
    assert!(dirty.has_differences());
    assert_eq!(dirty.exit_code(), 2);
}

#[test]
fn entry_filters() {
    assert!(!should_show_entry(&DiffStatus::Same, true, false, false, false, false, false));
    assert!(should_show_entry(&DiffStatus::Same, false, false, false, false, false, false));
    assert!(!should_show_entry(&DiffStatus::OrphanRight, false, false, false, false, true, false));
    assert!(should_show_entry(&DiffStatus::Different, true, true, false, false, false, false));
}

#[test]
fn long_paths_keep_their_end() {
    assert_eq!(truncate_path("short.txt", 20), "short.txt");
    assert_eq!(truncate_path("a/very/long/path/file.txt", 10), "...ile.txt");
    assert_eq!(truncate_path("abcdef", 2), "...");
    assert_eq!(truncate_path("ééééé", 4), "...é");
}

#[test]
fn copy_paths_merge_sort_and_dedup() {
    let cli_paths = vec!["foo.txt".to_string(), " abc.txt ".to_string(), "   ".to_string()];
    let paths = collect_copy_paths(&cli_paths, Some("# comment\nfoo.txt\nbar/baz.txt\nfoo.txt\n\n"));
    assert_eq!(paths, vec!["abc.txt", "bar/baz.txt", "foo.txt"]);
    let only_cli = collect_copy_paths(&vec!["#kept".to_string()], None);
    assert_eq!(only_cli, vec!["#kept"]);
}

#[test]
fn progress_counters_reset() {
    let mut c = ProgressCounters { entries_done: 5, entries_total: 9, bytes_done: 10, bytes_total: 20 };
    let snap = c.snapshot(ScanStage::Hashing, 3, 7);
    assert_eq!(snap.entries_done, 5);
    assert_eq!(snap.stage, ScanStage::Hashing);
    c.reset();
    assert_eq!(c.entries_done + c.entries_total, 0);
    assert_eq!(c.bytes_done + c.bytes_total, 0);
    assert_eq!(ScanStage::DiffingFiles.label(), "Diffing files");
}

#[test]
fn vfs_capabilities() {
    let full = VfsCapabilities::full();
    assert!(full.read && full.write && full.delete && full.rename && full.create_dir && full.set_mtime);
    let ro = VfsCapabilities::read_only();
    assert!(ro.read && !ro.write && !ro.delete);
    assert_eq!(VfsCapabilities::default(), VfsCapabilities { read: false, write: false, delete: false, rename: false, create_dir: false, set_mtime: false });
}

#[test]
fn missing_config_is_written() {
    let loaded = LoadedConfig { config: AppConfig::default(), path: "cfg.toml".to_string(), exists: false, portable: false };
    assert!(ensure_config(&loaded));
    let present = LoadedConfig { exists: true, ..loaded };
    assert!(!ensure_config(&present));
}

#[test]
fn session_ids_are_random_version_4_uuids() {
    let a = rcompare::types::SessionId::new();
    let b = rcompare::types::SessionId::default();
    let ua = uuid::Uuid::from_u128(a.0);
    assert_eq!(ua.get_version_num(), 4);
    assert_eq!(ua.get_variant(), uuid::Variant::RFC4122);
    assert_eq!(uuid::Uuid::from_u128(b.0).get_version_num(), 4);
    assert_ne!(a, b);
}

#[test]
fn progress_percent_is_whole_and_capped() {
    let mut c = ProgressCounters::default();
    assert_eq!(c.snapshot(ScanStage::Comparing, 0, 1).percent(), 0);
    c.entries_total = 100;
    c.entries_done = 29;
    assert_eq!(c.snapshot(ScanStage::Comparing, 0, 1).percent(), 29);
    c.entries_total = 3;
    c.entries_done = 1;
    assert_eq!(c.snapshot(ScanStage::Comparing, 0, 1).percent(), 33);
    c.entries_done = 7;
    assert_eq!(c.snapshot(ScanStage::Comparing, 0, 1).percent(), 100);
    c.entries_total = usize::MAX;
    c.entries_done = usize::MAX;
    assert_eq!(c.snapshot(ScanStage::Comparing, 0, 1).percent(), 100);
}
