use rcompare::patch_parser::normal::parse_normal;
use rcompare::patch_types::DifferenceType;

#[test]
fn test_parse_normal_change() {
    let input = "\
1,2c1,2
< old1
< old2
---
> new1
> new2";
    let lines: Vec<&str> = input.lines().collect();
    let result = parse_normal(&lines).unwrap();
    assert_eq!(result.len(), 1);
    let hunk = &result[0].hunks[0];
    assert_eq!(hunk.differences[0].diff_type, DifferenceType::Change);
    assert_eq!(hunk.differences[0].source_lines.len(), 2);
    assert_eq!(hunk.differences[0].dest_lines.len(), 2);
}

#[test]
fn test_parse_normal_add() {
    let input = "\
2a3,4
> added1
> added2";
    let lines: Vec<&str> = input.lines().collect();
    let result = parse_normal(&lines).unwrap();
    let hunk = &result[0].hunks[0];
    assert_eq!(hunk.differences[0].diff_type, DifferenceType::Insert);
    assert_eq!(hunk.differences[0].dest_lines.len(), 2);
}

#[test]
fn test_parse_normal_delete() {
    let input = "\
3,5d2
< removed1
< removed2
< removed3";
    let lines: Vec<&str> = input.lines().collect();
    let result = parse_normal(&lines).unwrap();
    let hunk = &result[0].hunks[0];
    assert_eq!(hunk.differences[0].diff_type, DifferenceType::Delete);
    assert_eq!(hunk.differences[0].source_lines.len(), 3);
}

#[test]
fn test_parse_normal_with_header() {
    let input = "\
diff source.txt destination.txt
1c1
< old
---
> new";
    let lines: Vec<&str> = input.lines().collect();
    let result = parse_normal(&lines).unwrap();
    assert_eq!(result.len(), 1);
    assert_eq!(result[0].source, "source.txt");
    assert_eq!(result[0].destination, "destination.txt");
}
