use rcompare::patch_engine::{split_lines, PatchEngine};
use rcompare::patch_parser::PatchParser;
use rcompare::patch_types::{FilePatch, HunkType};

fn make_simple_patch() -> FilePatch {
    let parser = PatchParser::new();
    let input = "\
--- a/file.txt\t2024-01-01
+++ b/file.txt\t2024-01-02
@@ -1,5 +1,5 @@
 line1
-old2
+new2
 line3
-old4
+new4
 line5";
    let ps = parser.parse_string(input).unwrap();
    ps.files.into_iter().next().unwrap()
}

#[test]
fn test_apply_difference() {
    let mut fp = make_simple_patch();
    assert_eq!(fp.applied_count, 0);

    PatchEngine::apply_difference(&mut fp, 0).unwrap();
    assert_eq!(fp.applied_count, 1);

    // Verify the first non-Unchanged diff is applied
    let indices = fp.difference_indices();
    let (hi, di) = indices[0];
    assert!(fp.hunks[hi].differences[di].applied);
}

#[test]
fn test_unapply_difference() {
    let mut fp = make_simple_patch();
    PatchEngine::apply_difference(&mut fp, 0).unwrap();
    PatchEngine::unapply_difference(&mut fp, 0).unwrap();
    assert_eq!(fp.applied_count, 0);
}

#[test]
fn test_apply_all() {
    let mut fp = make_simple_patch();
    PatchEngine::apply_all(&mut fp).unwrap();
    assert_eq!(fp.applied_count, fp.difference_count());
}

#[test]
fn test_unapply_all() {
    let mut fp = make_simple_patch();
    PatchEngine::apply_all(&mut fp).unwrap();
    PatchEngine::unapply_all(&mut fp).unwrap();
    assert_eq!(fp.applied_count, 0);
}

#[test]
fn test_blend_file() {
    let parser = PatchParser::new();
    let diff_input = "\
--- a/file.txt\t2024-01-01
+++ b/file.txt\t2024-01-02
@@ -3,3 +3,3 @@
 line3
-old4
+new4
 line5";
    let mut ps = parser.parse_string(diff_input).unwrap();
    let fp = &mut ps.files[0];

    let original = "line1\nline2\nline3\nold4\nline5\nline6\n";
    PatchEngine::blend_file(fp, original).unwrap();

    assert!(fp.blended);
    // Should have: AddedByBlend(lines 1-2), Original hunk(lines 3-5), AddedByBlend(line 6)
    assert!(fp.hunks.len() >= 2);
    assert_eq!(fp.hunks[0].hunk_type, HunkType::AddedByBlend);
}

#[test]
fn test_reconstruct_destination() {
    let parser = PatchParser::new();
    let diff_input = "\
--- a/file.txt\t2024-01-01
+++ b/file.txt\t2024-01-02
@@ -1,3 +1,3 @@
 line1
-old
+new
 line3";
    let mut ps = parser.parse_string(diff_input).unwrap();
    let fp = &mut ps.files[0];

    let original = "line1\nold\nline3\n";
    PatchEngine::blend_file(fp, original).unwrap();

    // Without applying, destination shows patched version
    let result = PatchEngine::reconstruct_destination(fp).unwrap();
    assert!(result.contains("new"));
    assert!(!result.contains("old"));
}

#[test]
fn test_split_lines() {
    let lines = split_lines("a\nb\nc\n");
    assert_eq!(lines, vec!["a\n", "b\n", "c\n"]);

    let lines = split_lines("a\nb");
    assert_eq!(lines, vec!["a\n", "b"]);

    let lines = split_lines("");
    assert!(lines.is_empty());
}

#[test]
fn test_out_of_range() {
    let mut fp = make_simple_patch();
    let result = PatchEngine::apply_difference(&mut fp, 999);
    assert!(result.is_err());
}

#[test]
fn apply_all_counts_every_applied_change() {
    let mut fp = make_simple_patch();
    PatchEngine::apply_difference(&mut fp, 1).unwrap();
    assert_eq!(fp.applied_count, 1);
    PatchEngine::apply_all(&mut fp).unwrap();
    assert_eq!(fp.applied_count, fp.difference_count());
    assert_eq!(fp.applied_count, 2);
}

#[test]
fn blending_marks_changes_whose_source_lines_differ() {
    let ps = PatchParser::new().parse_string("--- a/f\n+++ b/f\n@@ -1,1 +1,1 @@\n-old\n+new").unwrap();
    let mut fp = ps.files.into_iter().next().unwrap();
    PatchEngine::blend_file(&mut fp, "other\n").unwrap();
    assert_eq!(fp.hunks.len(), 1);
    assert!(fp.hunks[0].differences[0].conflict);

    let mut clean = make_simple_patch();
    PatchEngine::blend_file(&mut clean, "line1\nold2\nline3\nold4\nline5\n").unwrap();
    assert!(clean.hunks.iter().all(|h| h.differences.iter().all(|d| !d.conflict)));

    let mut partly = make_simple_patch();
    PatchEngine::blend_file(&mut partly, "line1\nold2\nline3\nchanged4\nline5\n").unwrap();
    let flags: Vec<bool> = partly.hunks[0].differences.iter().map(|d| d.conflict).collect();
    assert_eq!(flags, vec![false, false, false, true, false]);
}

#[test]
fn blend_apply_all_reconstructs_the_original_file() {
    let parser = PatchParser::new();
    let input = "--- a/f\n+++ b/f\n@@ -2,2 +2,2 @@\n-old2\n+new2\n line3\n";
    let mut ps = parser.parse_string(input).unwrap();
    let original = "line1\nold2\nline3\nline4";
    let before = rcompare::patch_serializer::PatchSerializer::serialize_file_patch(&ps.files[0]);
    PatchEngine::blend_file(&mut ps.files[0], original).unwrap();
    let after = rcompare::patch_serializer::PatchSerializer::serialize_file_patch(&ps.files[0]);
    assert_eq!(before, after);
    assert_eq!(ps.files[0].hunks.iter().filter(|h| h.hunk_type == HunkType::AddedByBlend).count(), 2);
    PatchEngine::apply_all(&mut ps.files[0]).unwrap();
    assert_eq!(PatchEngine::reconstruct_destination(&ps.files[0]).unwrap(), original);
}
