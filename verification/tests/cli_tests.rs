use rcompare::cli::capabilities::build_capabilities_report;
use rcompare::cli::copy_paths::{
    after_source_check, check_copy_path, copy_direction, copy_outcome, status_label, CopyItemStatus,
    CopySummaryReport,
};
use rcompare::cli::diff_file::{build_binary_diff_result, checked_rel_path, read_side, resolve_diff_mode, trim_diff_context};
use rcompare::cli::scan_report::{
    analysis_candidates, build_json_report, json_side, limit_report_entries, system_time_to_unix, AnalysisKind, ReportFilter,
};
use rcompare::file_kinds::{detect_archive_kind, ArchiveKind};
use rcompare::paths::is_safe_relative_path;
use rcompare::sync::{plan_sync_actions, record_outcome, ActionKind, SyncSummary};
use rcompare::text_diff::{DiffChangeType, DiffLine};
use rcompare::types::{DiffNode, DiffStatus, FileEntry};

const SECOND: i128 = 1_000_000_000;

#[test]
fn test_detect_archive_kind_zip() {
    assert!(matches!(detect_archive_kind("file.zip"), Some(ArchiveKind::Zip)));
    assert!(matches!(detect_archive_kind("FILE.ZIP"), Some(ArchiveKind::Zip)));
    assert!(matches!(detect_archive_kind("/path/to/archive.ZIP"), Some(ArchiveKind::Zip)));
}

#[test]
fn test_detect_archive_kind_tar() {
    assert!(matches!(detect_archive_kind("file.tar"), Some(ArchiveKind::Tar)));
    assert!(matches!(detect_archive_kind("file.tar.gz"), Some(ArchiveKind::Tar)));
    assert!(matches!(detect_archive_kind("file.tgz"), Some(ArchiveKind::Tar)));
    assert!(matches!(detect_archive_kind("FILE.TAR.GZ"), Some(ArchiveKind::Tar)));
}

#[test]
fn test_detect_archive_kind_7z() {
    assert!(matches!(detect_archive_kind("file.7z"), Some(ArchiveKind::SevenZ)));
    assert!(matches!(detect_archive_kind("FILE.7Z"), Some(ArchiveKind::SevenZ)));
}

#[test]
fn test_detect_archive_kind_none() {
    assert!(detect_archive_kind("file.txt").is_none());
    assert!(detect_archive_kind("file.rar").is_none());
    assert!(detect_archive_kind("file").is_none());
    assert!(detect_archive_kind("").is_none());
}

#[test]
fn test_system_time_to_unix() {
    let time = 1700000000 * SECOND;
    assert_eq!(system_time_to_unix(time), Some(1700000000));

    assert_eq!(system_time_to_unix(0), Some(0));
}

#[test]
fn system_time_before_epoch_has_no_seconds() {
    assert_eq!(system_time_to_unix(-1), None);
    assert_eq!(system_time_to_unix(1_500_000_000), Some(1));
}

#[test]
fn test_json_side() {
    let entry = FileEntry { path: "test.txt".to_string(), size: 1024, modified: 1700000000 * SECOND, is_dir: false };

    let side = json_side(&entry);
    assert_eq!(side.size, 1024);
    assert_eq!(side.modified_unix, Some(1700000000));
    assert!(!side.is_dir);
}

#[test]
fn test_json_side_directory() {
    let entry = FileEntry { path: "subdir".to_string(), size: 4096, modified: 1600000000 * SECOND, is_dir: true };

    let side = json_side(&entry);
    assert_eq!(side.size, 4096);
    assert_eq!(side.modified_unix, Some(1600000000));
    assert!(side.is_dir);
}

fn entry(path: &str, size: u64) -> FileEntry {
    FileEntry { path: path.to_string(), size, modified: 0, is_dir: false }
}

fn filter(diff_only: bool) -> ReportFilter {
    ReportFilter {
        diff_only,
        hide_identical: false,
        hide_different: false,
        hide_left_only: false,
        hide_right_only: false,
        hide_unchecked: false,
    }
}

#[test]
fn test_build_json_report_basic() {
    let diff_nodes = vec![
        DiffNode {
            relative_path: "same.txt".to_string(),
            status: DiffStatus::Same,
            left: Some(entry("same.txt", 100)),
            right: Some(entry("same.txt", 100)),
        },
        DiffNode {
            relative_path: "diff.txt".to_string(),
            status: DiffStatus::Different,
            left: Some(entry("diff.txt", 100)),
            right: Some(entry("diff.txt", 200)),
        },
    ];

    let report = build_json_report("/left", "/right", &diff_nodes, Vec::new(), filter(false));

    assert_eq!(report.left, "/left");
    assert_eq!(report.right, "/right");
    assert_eq!(report.summary.total, 2);
    assert_eq!(report.summary.same, 1);
    assert_eq!(report.summary.different, 1);
    assert_eq!(report.entries.len(), 2);
}

#[test]
fn test_build_json_report_diff_only() {
    let diff_nodes = vec![
        DiffNode {
            relative_path: "same.txt".to_string(),
            status: DiffStatus::Same,
            left: Some(entry("same.txt", 100)),
            right: Some(entry("same.txt", 100)),
        },
        DiffNode {
            relative_path: "orphan.txt".to_string(),
            status: DiffStatus::OrphanLeft,
            left: Some(entry("orphan.txt", 100)),
            right: None,
        },
    ];

    let report = build_json_report("/left", "/right", &diff_nodes, Vec::new(), filter(true));

    assert_eq!(report.summary.total, 2);
    assert_eq!(report.summary.same, 1);
    assert_eq!(report.summary.orphan_left, 1);
    assert_eq!(report.entries.len(), 1);
    assert_eq!(report.entries[0].path, "orphan.txt");
}

#[test]
fn test_build_capabilities_report_has_core_commands() {
    let report = build_capabilities_report();

    assert_eq!(report.schema_version, "1.0.0");
    assert_eq!(report.scan_json_schema_versions, vec!["1.1.0".to_string()]);
    assert!(report.commands.iter().any(|c| c.name == "scan"));
    assert!(report.commands.iter().any(|c| c.name == "sync"));
    assert!(report.commands.iter().any(|c| c.name == "copy"));
    assert!(report.commands.iter().any(|c| c.name == "diff-file"));
    assert!(report.commands.iter().any(|c| c.name == "read"));
    assert!(report.commands.iter().any(|c| c.name == "capabilities"));
    assert!(report.exit_codes.iter().any(|e| e.code == 2));
}

#[test]
fn test_build_capabilities_report_scan_flags_include_json() {
    let report = build_capabilities_report();
    let scan = report.commands.iter().find(|c| c.name == "scan").expect("scan command must exist");
    assert!(scan.flags.iter().any(|f| f == "--json"));
    assert!(scan.supports_json);
}

fn sync_test_entry(path: &str, status: DiffStatus, left_modified_secs: Option<u64>, right_modified_secs: Option<u64>) -> DiffNode {
    DiffNode {
        relative_path: path.to_string(),
        status,
        left: left_modified_secs.map(|secs| FileEntry {
            path: path.to_string(),
            size: 0,
            modified: secs as i128 * SECOND,
            is_dir: false,
        }),
        right: right_modified_secs.map(|secs| FileEntry {
            path: path.to_string(),
            size: 0,
            modified: secs as i128 * SECOND,
            is_dir: false,
        }),
    }
}

#[test]
fn test_plan_sync_actions_left_to_right() {
    let entries = vec![
        sync_test_entry("a.txt", DiffStatus::OrphanLeft, Some(10), None),
        sync_test_entry("b.txt", DiffStatus::Different, Some(20), Some(15)),
    ];

    let actions = plan_sync_actions(&entries, "left_to_right", "newest").unwrap();
    assert_eq!(actions.len(), 2);
    assert_eq!(actions[0].code, "COPY_LR");
    assert_eq!(actions[1].code, "UPDATE_R");
}

#[test]
fn test_plan_sync_actions_bidirectional_newest() {
    let entries = vec![sync_test_entry("c.txt", DiffStatus::Different, Some(30), Some(10))];

    let actions = plan_sync_actions(&entries, "bidirectional", "newest").unwrap();
    assert_eq!(actions.len(), 1);
    assert_eq!(actions[0].code, "COPY_LR");
}

#[test]
fn plan_sync_actions_refuses_unknown_direction() {
    let entries = vec![sync_test_entry("c.txt", DiffStatus::Different, Some(30), Some(10))];
    assert!(plan_sync_actions(&entries, "sideways", "newest").is_err());
}

#[test]
fn one_way_plans_change_only_the_target() {
    let entries = vec![
        sync_test_entry("z.txt", DiffStatus::OrphanRight, None, Some(5)),
        sync_test_entry("a.txt", DiffStatus::OrphanLeft, Some(10), None),
        sync_test_entry("m.txt", DiffStatus::Different, Some(1), Some(50)),
        sync_test_entry("s.txt", DiffStatus::Same, Some(1), Some(1)),
        sync_test_entry("u.txt", DiffStatus::Unchecked, Some(1), Some(1)),
    ];
    let lr = plan_sync_actions(&entries, "left_to_right", "error").unwrap();
    let codes: Vec<&str> = lr.iter().map(|a| a.code.as_str()).collect();
    assert_eq!(codes, vec!["COPY_LR", "UPDATE_R", "SKIP", "DELETE_R"]);
    let rl = plan_sync_actions(&entries, "right_to_left", "error").unwrap();
    let codes: Vec<&str> = rl.iter().map(|a| a.code.as_str()).collect();
    assert_eq!(codes, vec!["DELETE_L", "UPDATE_L", "SKIP", "COPY_RL"]);
    let both = plan_sync_actions(&entries, "bidirectional", "error");
    assert_eq!(both.unwrap_err(), "conflict encountered for m.txt and policy=error");
}

#[test]
fn test_is_safe_relative_path() {
    assert!(is_safe_relative_path("src/main.rs"));
    assert!(is_safe_relative_path("./a/b.txt"));
    assert!(!is_safe_relative_path("../secret"));
    assert!(!is_safe_relative_path("/etc/passwd"));
}

fn diff_line(change_type: DiffChangeType) -> DiffLine {
    DiffLine {
        line_number_left: Some(1),
        line_number_right: Some(1),
        content: String::new(),
        change_type,
        highlighted_segments: Vec::new(),
    }
}

#[test]
fn test_trim_diff_context_none_returns_all_lines() {
    let lines = vec![diff_line(DiffChangeType::Equal), diff_line(DiffChangeType::Insert)];
    let trimmed = trim_diff_context(lines.clone(), None);
    assert_eq!(trimmed.len(), lines.len());
}

#[test]
fn test_trim_diff_context_keeps_only_lines_near_changes() {
    let lines = vec![
        diff_line(DiffChangeType::Equal),
        diff_line(DiffChangeType::Equal),
        diff_line(DiffChangeType::Equal),
        diff_line(DiffChangeType::Insert),
        diff_line(DiffChangeType::Equal),
        diff_line(DiffChangeType::Equal),
        diff_line(DiffChangeType::Equal),
    ];
    let trimmed = trim_diff_context(lines, Some(1));
    assert_eq!(trimmed.len(), 3);
    assert_eq!(trimmed[0].change_type, DiffChangeType::Equal);
    assert_eq!(trimmed[1].change_type, DiffChangeType::Insert);
    assert_eq!(trimmed[2].change_type, DiffChangeType::Equal);
}

#[test]
fn test_trim_diff_context_merges_overlapping_windows() {
    let lines = vec![
        diff_line(DiffChangeType::Equal),
        diff_line(DiffChangeType::Delete),
        diff_line(DiffChangeType::Equal),
        diff_line(DiffChangeType::Insert),
        diff_line(DiffChangeType::Equal),
    ];
    let trimmed = trim_diff_context(lines, Some(1));
    assert_eq!(trimmed.len(), 5);
}

#[test]
fn test_trim_diff_context_empty_input() {
    let trimmed = trim_diff_context(Vec::new(), Some(2));
    assert!(trimmed.is_empty());
}

#[test]
fn trim_diff_context_zero_keeps_changes_only() {
    let lines = vec![
        diff_line(DiffChangeType::Equal),
        diff_line(DiffChangeType::Delete),
        diff_line(DiffChangeType::Equal),
    ];
    let trimmed = trim_diff_context(lines, Some(0));
    assert_eq!(trimmed.len(), 1);
    assert_eq!(trimmed[0].change_type, DiffChangeType::Delete);
}

#[test]
fn test_resolve_diff_mode_auto_binary_fallback() {
    assert_eq!(resolve_diff_mode("blob.bin", "auto").unwrap(), "binary");
}

#[test]
fn test_resolve_diff_mode_auto_text_and_image() {
    assert_eq!(resolve_diff_mode("src/main.rs", "auto").unwrap(), "text");
    assert_eq!(resolve_diff_mode("assets/logo.png", "auto").unwrap(), "image");
}

#[test]
fn resolve_diff_mode_other_kinds() {
    assert_eq!(resolve_diff_mode("data.csv", "auto").unwrap(), "csv");
    assert_eq!(resolve_diff_mode("book.XLSX", "auto").unwrap(), "excel");
    assert_eq!(resolve_diff_mode("a.json", "auto").unwrap(), "json");
    assert_eq!(resolve_diff_mode("a.yml", "auto").unwrap(), "yaml");
    assert_eq!(resolve_diff_mode("a.parquet", "auto").unwrap(), "parquet");
    assert_eq!(resolve_diff_mode("a.png", "text").unwrap(), "text");
    assert_eq!(resolve_diff_mode("a.png", "fancy").unwrap_err(), "unknown diff mode: fancy");
}

#[test]
fn test_build_binary_diff_result_ranges() {
    let left = b"abcXXXdefYYY";
    let right = b"abc123def000";
    let result = build_binary_diff_result(left, right, 10);
    assert!(!result.identical);
    assert_eq!(result.mismatch_bytes, 6);
    assert_eq!(result.mismatch_ranges.len(), 2);
    assert_eq!(result.mismatch_ranges[0].start, 3);
    assert_eq!(result.mismatch_ranges[0].end_exclusive, 6);
    assert_eq!(result.mismatch_ranges[1].start, 9);
    assert_eq!(result.mismatch_ranges[1].end_exclusive, 12);
}

#[test]
fn test_build_binary_diff_result_truncation() {
    let left = b"abcdef";
    let right = b"aXcYef";
    let result = build_binary_diff_result(left, right, 1);
    assert!(!result.identical);
    assert!(result.truncated_ranges);
    assert_eq!(result.mismatch_ranges.len(), 1);
}

#[test]
fn binary_diff_counts_extra_bytes_and_identical_files() {
    let result = build_binary_diff_result(b"abc", b"abcde", 0);
    assert_eq!(result.mismatch_bytes, 2);
    assert!(result.truncated_ranges);
    assert!(result.mismatch_ranges.is_empty());
    let same = build_binary_diff_result(b"same", b"same", 4);
    assert!(same.identical);
    assert!(!same.truncated_ranges);
    assert!(same.mismatch_ranges.is_empty());
}

#[test]
fn executed_actions_are_counted_by_kind_and_outcome() {
    let mut s = SyncSummary { total_actions: 5, copied: 0, updated: 0, deleted: 0, skipped: 0, failed: 0 };
    record_outcome(&mut s, ActionKind::CopyRightToLeft, true);
    record_outcome(&mut s, ActionKind::UpdateLeft, true);
    record_outcome(&mut s, ActionKind::DeleteRight, false);
    record_outcome(&mut s, ActionKind::Skip, true);
    record_outcome(&mut s, ActionKind::DeleteLeft, true);
    assert_eq!((s.copied, s.updated, s.deleted, s.skipped, s.failed), (1, 1, 1, 1, 1));
    assert_eq!(s.total_actions, 5);
}

#[test]
fn copy_items_are_skipped_missing_planned_copied_or_failed() {
    assert_eq!(copy_direction("Left_To_Right").unwrap(), (true, "left_to_right".to_string()));
    assert_eq!(copy_direction("right_to_left").unwrap(), (false, "right_to_left".to_string()));
    assert_eq!(
        copy_direction("both").unwrap_err(),
        "invalid --direction. Use: left_to_right, right_to_left"
    );

    let skipped = check_copy_path("../escape.txt").unwrap();
    assert_eq!(skipped.status, CopyItemStatus::Skipped);
    assert_eq!(skipped.detail, "Invalid relative path (must not be absolute or contain '..')");
    assert!(check_copy_path("dir/file.txt").is_none());

    let missing = after_source_check("a.txt", false, true, "/l/a.txt", "/r/a.txt").unwrap();
    assert_eq!((missing.status, missing.detail.as_str()), (CopyItemStatus::Missing, "Source path does not exist"));
    let planned = after_source_check("a.txt", true, true, "/l/a.txt", "/r/a.txt").unwrap();
    assert_eq!(planned.detail, "Would copy /l/a.txt -> /r/a.txt");
    assert_eq!(status_label(planned.status), "planned");
    assert!(after_source_check("a.txt", true, false, "/l/a.txt", "/r/a.txt").is_none());

    let copied = copy_outcome("a.txt", Ok(()));
    assert_eq!((copied.status, copied.detail.as_str()), (CopyItemStatus::Copied, "Copied successfully"));
    let failed = copy_outcome("b.txt", Err("Permission denied".to_string()));
    assert_eq!((failed.status, failed.detail.as_str()), (CopyItemStatus::Failed, "Permission denied"));

    let mut summary = CopySummaryReport::for_paths(5);
    for s in [skipped.status, missing.status, planned.status, copied.status, failed.status] {
        summary.record(s);
    }
    assert_eq!((summary.copied, summary.missing, summary.skipped, summary.failed), (2, 1, 1, 1));
}

#[test]
fn analyses_pick_differing_files_of_their_kind_on_both_sides() {
    let entries = vec![
        sync_test_entry("a.csv", DiffStatus::Different, Some(1), Some(2)),
        sync_test_entry("b.csv", DiffStatus::Same, Some(1), Some(1)),
        sync_test_entry("c.json", DiffStatus::Unchecked, Some(1), Some(2)),
        sync_test_entry("d.csv", DiffStatus::OrphanLeft, Some(1), None),
        sync_test_entry("e.tsv", DiffStatus::Unchecked, Some(1), Some(3)),
    ];
    assert_eq!(analysis_candidates(&entries, AnalysisKind::Csv), vec![0, 4]);
    assert_eq!(analysis_candidates(&entries, AnalysisKind::Json), vec![2]);
    assert!(analysis_candidates(&entries, AnalysisKind::Image).is_empty());
}

#[test]
fn report_entries_are_limited_on_request() {
    let entries = vec![
        sync_test_entry("a.txt", DiffStatus::Different, Some(1), Some(2)),
        sync_test_entry("b.txt", DiffStatus::Same, Some(1), Some(1)),
        sync_test_entry("c.txt", DiffStatus::OrphanLeft, Some(1), None),
    ];
    let filter = ReportFilter {
        diff_only: false,
        hide_identical: false,
        hide_different: false,
        hide_left_only: false,
        hide_right_only: false,
        hide_unchecked: false,
    };
    let mut limited = build_json_report("l", "r", &entries, Vec::new(), filter);
    limit_report_entries(&mut limited, false, Some(2));
    let paths: Vec<&str> = limited.entries.iter().map(|e| e.path.as_str()).collect();
    assert_eq!(paths, vec!["a.txt", "b.txt"]);
    assert_eq!(limited.summary.total, 3);
    let mut summary = build_json_report("l", "r", &entries, Vec::new(), filter);
    limit_report_entries(&mut summary, true, Some(2));
    assert!(summary.entries.is_empty());
    let mut all = build_json_report("l", "r", &entries, Vec::new(), filter);
    limit_report_entries(&mut all, false, None);
    assert_eq!(all.entries.len(), 3);
}

#[test]
fn test_collect_copy_paths_merges_and_deduplicates() {
    let file_text = "# comment\nfoo.txt\nbar/baz.txt\nfoo.txt\n\n";
    let cli_paths = vec!["foo.txt".to_string(), "abc.txt".to_string()];
    let paths = rcompare::cli::copy_paths::collect_copy_paths(&cli_paths, Some(file_text));
    assert_eq!(paths, vec!["abc.txt", "bar/baz.txt", "foo.txt"]);
}

#[test]
fn file_commands_check_their_path_and_side() {
    assert_eq!(checked_rel_path("  dir/a.txt ").unwrap(), "dir/a.txt");
    assert_eq!(checked_rel_path("   ").unwrap_err(), "--path cannot be empty");
    assert_eq!(checked_rel_path("../x").unwrap_err(), "--path must be a safe relative path");
    assert_eq!(read_side("LEFT"), Ok(true));
    assert_eq!(read_side("right"), Ok(false));
    assert_eq!(read_side("middle").unwrap_err(), "invalid --side. Use: left, right");
}
