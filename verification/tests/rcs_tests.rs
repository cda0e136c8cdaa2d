use rcompare::patch_parser::rcs::parse_rcs;
use rcompare::patch_types::DifferenceType;

#[test]
fn test_parse_rcs_add() {
    let input = "\
a3 2
added line 1
added line 2";
    let lines: Vec<&str> = input.lines().collect();
    let result = parse_rcs(&lines).unwrap();
    assert_eq!(result.len(), 1);
    let hunk = &result[0].hunks[0];
    assert_eq!(hunk.differences[0].diff_type, DifferenceType::Insert);
    assert_eq!(hunk.differences[0].dest_lines.len(), 2);
    assert_eq!(hunk.dest_count, 2);
}

#[test]
fn test_parse_rcs_delete() {
    let input = "\
d5 3";
    let lines: Vec<&str> = input.lines().collect();
    let result = parse_rcs(&lines).unwrap();
    assert_eq!(result.len(), 1);
    let hunk = &result[0].hunks[0];
    assert_eq!(hunk.differences[0].diff_type, DifferenceType::Delete);
    assert_eq!(hunk.source_count, 3);
}

#[test]
fn test_parse_rcs_multiple_commands() {
    let input = "\
d1 2
a5 1
new line";
    let lines: Vec<&str> = input.lines().collect();
    let result = parse_rcs(&lines).unwrap();
    assert_eq!(result[0].hunks.len(), 2);
    assert_eq!(result[0].hunks[0].differences[0].diff_type, DifferenceType::Delete);
    assert_eq!(result[0].hunks[1].differences[0].diff_type, DifferenceType::Insert);
}

#[test]
fn test_parse_rcs_empty() {
    let input = "";
    let lines: Vec<&str> = input.lines().collect();
    let result = parse_rcs(&lines).unwrap();
    assert!(result.is_empty());
}
