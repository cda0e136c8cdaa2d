use rcompare::patch_parser::context::parse_context;
use rcompare::patch_types::DifferenceType;

#[test]
fn test_parse_simple_context_diff() {
    let input = "\
*** a/file.txt\t2024-01-01
--- b/file.txt\t2024-01-02
***************
*** 1,3 ****
  line1
! old_line
  line3
--- 1,3 ----
  line1
! new_line
  line3";
    let lines: Vec<&str> = input.lines().collect();
    let result = parse_context(&lines).unwrap();

    assert_eq!(result.len(), 1);
    let fp = &result[0];
    assert_eq!(fp.source, "a/file.txt");
    assert_eq!(fp.destination, "b/file.txt");
    assert_eq!(fp.hunks.len(), 1);

    let hunk = &fp.hunks[0];
    // Should have Unchanged, Change, Unchanged
    assert!(hunk.differences.len() >= 2);
    let change = hunk
        .differences
        .iter()
        .find(|d| d.diff_type == DifferenceType::Change);
    assert!(change.is_some());
    let change = change.unwrap();
    assert_eq!(change.source_lines.len(), 1);
    assert_eq!(change.dest_lines.len(), 1);
}

#[test]
fn test_parse_context_delete() {
    let input = "\
*** a/file.txt\t2024-01-01
--- b/file.txt\t2024-01-02
***************
*** 1,3 ****
  line1
- removed
  line3
--- 1,2 ----
  line1
  line3";
    let lines: Vec<&str> = input.lines().collect();
    let result = parse_context(&lines).unwrap();
    let hunk = &result[0].hunks[0];
    let delete = hunk
        .differences
        .iter()
        .find(|d| d.diff_type == DifferenceType::Delete);
    assert!(delete.is_some());
}

#[test]
fn test_parse_context_insert() {
    let input = "\
*** a/file.txt\t2024-01-01
--- b/file.txt\t2024-01-02
***************
*** 1,2 ****
  line1
  line2
--- 1,3 ----
  line1
+ added
  line2";
    let lines: Vec<&str> = input.lines().collect();
    let result = parse_context(&lines).unwrap();
    let hunk = &result[0].hunks[0];
    let insert = hunk
        .differences
        .iter()
        .find(|d| d.diff_type == DifferenceType::Insert);
    assert!(insert.is_some());
}
