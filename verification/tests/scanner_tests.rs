use rcompare::error::RCompareError;
use rcompare::scanner::{FolderScanner, ScanStep, WalkEvent};
use rcompare::types::{AppConfig, FileEntry, ScanOutcome};

fn walk_error() -> WalkEvent {
    WalkEvent::WalkError { path: "gone/x".to_string(), message: "No such file".to_string() }
}

#[test]
fn lenient_scan_keeps_errors_as_warnings() {
    let scanner = FolderScanner::new(AppConfig::default());
    let mut outcome = ScanOutcome::default();
    assert!(FolderScanner::record(&mut outcome, scanner.scan_step(walk_error())).is_none());
    let md = WalkEvent::MetadataError { path: "a".to_string(), message: "denied".to_string() };
    assert!(FolderScanner::record(&mut outcome, scanner.scan_step(md)).is_none());
    let pe = WalkEvent::PathError { path: "/elsewhere".to_string(), message: "prefix not found".to_string() };
    assert!(FolderScanner::record(&mut outcome, scanner.scan_step(pe)).is_none());
    assert!(FolderScanner::record(&mut outcome, scanner.scan_step(WalkEvent::Root)).is_none());
    let e = FileEntry { path: "dir/file.txt".to_string(), size: 3, modified: 7, is_dir: false };
    assert!(FolderScanner::record(&mut outcome, scanner.scan_step(WalkEvent::Entry(e))).is_none());
    assert_eq!(outcome.entries.len(), 1);
    assert_eq!(outcome.entries[0].path, "dir/file.txt");
    let texts: Vec<(String, String)> = outcome.warnings.iter().map(|w| (w.path.clone(), w.message.clone())).collect();
    assert_eq!(
        texts,
        vec![
            ("gone/x".to_string(), "walk error: No such file".to_string()),
            ("a".to_string(), "metadata error (likely a race, file may have vanished): denied".to_string()),
            ("/elsewhere".to_string(), "path error: prefix not found".to_string()),
        ]
    );
}

#[test]
fn strict_scan_stops_on_first_error() {
    let scanner = FolderScanner::new(AppConfig::default()).with_strict(true);
    match scanner.scan_step(walk_error()) {
        ScanStep::Stop(RCompareError::Io(m)) => assert_eq!(m, "Walk error: No such file"),
        _ => panic!("a strict scan stops on a walk error"),
    }
    let md = WalkEvent::MetadataError { path: "a".to_string(), message: "denied".to_string() };
    assert!(matches!(scanner.scan_step(md), ScanStep::Stop(RCompareError::Io(m)) if m == "Metadata error: denied"));
    let pe = WalkEvent::PathError { path: "/x".to_string(), message: "prefix not found".to_string() };
    assert!(matches!(scanner.scan_step(pe), ScanStep::Stop(RCompareError::Path(m)) if m == "prefix not found"));
    let mut outcome = ScanOutcome::default();
    let err = FolderScanner::record(&mut outcome, scanner.scan_step(WalkEvent::Cancelled));
    assert!(matches!(err, Some(RCompareError::Comparison(m)) if m == "Scan cancelled"));
    assert!(outcome.entries.is_empty() && outcome.warnings.is_empty());
}
