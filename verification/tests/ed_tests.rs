use rcompare::patch_parser::ed::parse_ed;
use rcompare::patch_types::DifferenceType;

#[test]
fn test_parse_ed_append() {
    let input = "\
2a
added line 1
added line 2
.";
    let lines: Vec<&str> = input.lines().collect();
    let result = parse_ed(&lines).unwrap();
    assert_eq!(result.len(), 1);
    let hunk = &result[0].hunks[0];
    assert_eq!(hunk.differences[0].diff_type, DifferenceType::Insert);
    assert_eq!(hunk.differences[0].dest_lines.len(), 2);
}

#[test]
fn test_parse_ed_delete() {
    let input = "\
3,5d";
    let lines: Vec<&str> = input.lines().collect();
    let result = parse_ed(&lines).unwrap();
    assert_eq!(result.len(), 1);
    let hunk = &result[0].hunks[0];
    assert_eq!(hunk.differences[0].diff_type, DifferenceType::Delete);
    assert_eq!(hunk.source_count, 3);
}

#[test]
fn test_parse_ed_change() {
    let input = "\
1,2c
new line 1
new line 2
new line 3
.";
    let lines: Vec<&str> = input.lines().collect();
    let result = parse_ed(&lines).unwrap();
    let hunk = &result[0].hunks[0];
    assert_eq!(hunk.differences[0].diff_type, DifferenceType::Change);
    assert_eq!(hunk.differences[0].source_lines.len(), 2); // old lines 1-2
    assert_eq!(hunk.differences[0].dest_lines.len(), 3); // new replacement
}

#[test]
fn test_parse_ed_multiple_commands() {
    let input = "\
1c
replacement
.
5a
appended
.";
    let lines: Vec<&str> = input.lines().collect();
    let result = parse_ed(&lines).unwrap();
    assert_eq!(result[0].hunks.len(), 2);
}
