use rcompare::patch_parser::unified::parse_unified;
use rcompare::patch_types::DifferenceType;

#[test]
fn test_parse_simple_unified() {
    let input = "\
--- a/file.txt\t2024-01-01 00:00:00
+++ b/file.txt\t2024-01-02 00:00:00
@@ -1,3 +1,3 @@
 line1
-line2
+line2_modified
 line3";
    let lines: Vec<&str> = input.lines().collect();
    let result = parse_unified(&lines).unwrap();

    assert_eq!(result.len(), 1);
    let fp = &result[0];
    assert_eq!(fp.source, "a/file.txt");
    assert_eq!(fp.destination, "b/file.txt");
    assert_eq!(fp.source_timestamp, "2024-01-01 00:00:00");
    assert_eq!(fp.hunks.len(), 1);

    let hunk = &fp.hunks[0];
    assert_eq!(hunk.source_start, 1);
    assert_eq!(hunk.source_count, 3);
    assert_eq!(hunk.dest_start, 1);
    assert_eq!(hunk.dest_count, 3);
    // Should have: Unchanged(line1), Change(line2->line2_modified), Unchanged(line3)
    assert_eq!(hunk.differences.len(), 3);
    assert_eq!(hunk.differences[0].diff_type, DifferenceType::Unchanged);
    assert_eq!(hunk.differences[1].diff_type, DifferenceType::Change);
    assert_eq!(hunk.differences[1].source_lines.len(), 1);
    assert_eq!(hunk.differences[1].dest_lines.len(), 1);
    assert_eq!(hunk.differences[2].diff_type, DifferenceType::Unchanged);
}

#[test]
fn test_parse_insert_only() {
    let input = "\
--- a/file.txt\t2024-01-01
+++ b/file.txt\t2024-01-02
@@ -1,2 +1,4 @@
 line1
+added1
+added2
 line2";
    let lines: Vec<&str> = input.lines().collect();
    let result = parse_unified(&lines).unwrap();
    let hunk = &result[0].hunks[0];
    // Unchanged(line1), Insert(added1, added2), Unchanged(line2)
    assert_eq!(hunk.differences.len(), 3);
    assert_eq!(hunk.differences[1].diff_type, DifferenceType::Insert);
    assert_eq!(hunk.differences[1].dest_lines.len(), 2);
}

#[test]
fn test_parse_delete_only() {
    let input = "\
--- a/file.txt\t2024-01-01
+++ b/file.txt\t2024-01-02
@@ -1,4 +1,2 @@
 line1
-removed1
-removed2
 line2";
    let lines: Vec<&str> = input.lines().collect();
    let result = parse_unified(&lines).unwrap();
    let hunk = &result[0].hunks[0];
    assert_eq!(hunk.differences.len(), 3);
    assert_eq!(hunk.differences[1].diff_type, DifferenceType::Delete);
    assert_eq!(hunk.differences[1].source_lines.len(), 2);
}

#[test]
fn test_parse_multiple_hunks() {
    let input = "\
--- a/file.txt\t2024-01-01
+++ b/file.txt\t2024-01-02
@@ -1,3 +1,3 @@
 line1
-old1
+new1
 line3
@@ -10,3 +10,3 @@
 line10
-old10
+new10
 line12";
    let lines: Vec<&str> = input.lines().collect();
    let result = parse_unified(&lines).unwrap();
    assert_eq!(result[0].hunks.len(), 2);
    assert_eq!(result[0].hunks[0].source_start, 1);
    assert_eq!(result[0].hunks[1].source_start, 10);
}

#[test]
fn test_parse_multiple_files() {
    let input = "\
--- a/first.txt\t2024-01-01
+++ b/first.txt\t2024-01-02
@@ -1,2 +1,2 @@
-old
+new
 ctx
--- a/second.txt\t2024-01-01
+++ b/second.txt\t2024-01-02
@@ -1,2 +1,2 @@
 ctx
-old2
+new2";
    let lines: Vec<&str> = input.lines().collect();
    let result = parse_unified(&lines).unwrap();
    assert_eq!(result.len(), 2);
    assert_eq!(result[0].source, "a/first.txt");
    assert_eq!(result[1].source, "a/second.txt");
}

#[test]
fn test_parse_with_function_name() {
    let input = "\
--- a/file.c\t2024-01-01
+++ b/file.c\t2024-01-02
@@ -10,3 +10,3 @@ int main()
 line10
-old
+new
 line12";
    let lines: Vec<&str> = input.lines().collect();
    let result = parse_unified(&lines).unwrap();
    assert_eq!(
        result[0].hunks[0].function_name.as_deref(),
        Some("int main()")
    );
}

#[test]
fn test_parse_with_revision() {
    let input = "\
--- a/file.txt\t2024-01-01\t1.1
+++ b/file.txt\t2024-01-02\t1.2
@@ -1,1 +1,1 @@
-old
+new";
    let lines: Vec<&str> = input.lines().collect();
    let result = parse_unified(&lines).unwrap();
    assert_eq!(result[0].source_revision, "1.1");
    assert_eq!(result[0].dest_revision, "1.2");
}
