use rcompare::binary_diff::BinaryDiffEngine;

#[test]
fn test_hex_formatting() {
    let engine = BinaryDiffEngine::default();
    let data = b"Hello";
    let formatted = engine.format_hex_line(0, data);

    assert!(formatted.contains("48 65 6C 6C 6F"));
    assert!(formatted.contains("Hello"));
}

#[test]
fn test_find_differences() {
    let engine = BinaryDiffEngine::default();
    let left = b"Hello World";
    let right = b"Hello Rust!";

    let diffs = engine.find_differences(left, right);
    assert!(!diffs.is_empty());
    assert!(diffs.contains(&6));
}
