use rcompare::patch_types::{DiffFormat, DiffGenerator, DifferenceType, FilePatch, Hunk, PatchDifference, PatchSet};

#[test]
fn test_patch_set_default() {
    let ps = PatchSet::new();
    assert!(ps.files.is_empty());
    assert_eq!(ps.format, DiffFormat::Unknown);
    assert_eq!(ps.generator, DiffGenerator::Unknown);
}

#[test]
fn test_file_patch_difference_count() {
    let mut fp = FilePatch::new();
    let mut hunk = Hunk::new(1, 1);
    hunk.differences.push(PatchDifference::new(DifferenceType::Unchanged, 1, 1));
    hunk.differences.push(PatchDifference::new(DifferenceType::Change, 2, 2));
    hunk.differences.push(PatchDifference::new(DifferenceType::Insert, 0, 3));
    hunk.differences.push(PatchDifference::new(DifferenceType::Unchanged, 3, 4));
    fp.hunks.push(hunk);
    assert_eq!(fp.difference_count(), 2);
}

#[test]
fn test_hunk_recompute_counts() {
    let mut hunk = Hunk::new(1, 1);
    let mut d1 = PatchDifference::new(DifferenceType::Unchanged, 1, 1);
    d1.source_lines.push("ctx\n".to_string());
    d1.dest_lines.push("ctx\n".to_string());

    let mut d2 = PatchDifference::new(DifferenceType::Change, 2, 2);
    d2.source_lines.push("old\n".to_string());
    d2.dest_lines.push("new1\n".to_string());
    d2.dest_lines.push("new2\n".to_string());

    hunk.differences.push(d1);
    hunk.differences.push(d2);
    hunk.recompute_counts();
    assert_eq!(hunk.source_count, 2);
    assert_eq!(hunk.dest_count, 3);
}

#[test]
fn test_difference_line_counts() {
    let mut d = PatchDifference::new(DifferenceType::Delete, 5, 5);
    d.source_lines.push("line1\n".to_string());
    d.source_lines.push("line2\n".to_string());
    assert_eq!(d.source_line_count(), 2);
    assert_eq!(d.dest_line_count(), 0);
}

#[test]
fn difference_indices_skip_unchanged_context() {
    let mut fp = FilePatch::new();
    let mut hunk = Hunk::new(1, 1);
    hunk.differences.push(PatchDifference::new(DifferenceType::Unchanged, 1, 1));
    hunk.differences.push(PatchDifference::new(DifferenceType::Delete, 2, 2));
    fp.hunks.push(hunk);
    let mut second = Hunk::new(10, 10);
    second.differences.push(PatchDifference::new(DifferenceType::Insert, 10, 10));
    fp.hunks.push(second);
    assert_eq!(fp.difference_indices(), vec![(0, 1), (1, 0)]);
    assert!(!fp.has_unsaved_changes());
}
