use rcompare::patch_parser::PatchParser;
use rcompare::patch_types::{DiffFormat, DiffGenerator};

#[test]
fn test_detect_generator_cvs() {
    let lines = vec!["Index: file.txt", "===", "--- file.txt"];
    assert_eq!(PatchParser::detect_generator(&lines), DiffGenerator::CvsDiff);
}

#[test]
fn test_detect_generator_perforce() {
    let lines = vec!["==== //depot/file.txt#1 - file.txt ===="];
    assert_eq!(PatchParser::detect_generator(&lines), DiffGenerator::Perforce);
}

#[test]
fn test_detect_generator_diff() {
    let lines = vec!["--- a/file.txt", "+++ b/file.txt"];
    assert_eq!(PatchParser::detect_generator(&lines), DiffGenerator::Diff);
}

#[test]
fn test_detect_format_unified() {
    let lines = vec!["--- a/f", "+++ b/f", "@@ -1,3 +1,3 @@", " ctx"];
    assert_eq!(PatchParser::detect_format(&lines), DiffFormat::Unified);
}

#[test]
fn test_detect_format_context() {
    let lines = vec!["*** a/f", "--- b/f", "***************"];
    assert_eq!(PatchParser::detect_format(&lines), DiffFormat::Context);
}

#[test]
fn test_detect_format_normal() {
    let lines = vec!["1,3c4,6", "< old"];
    assert_eq!(PatchParser::detect_format(&lines), DiffFormat::Normal);
}

#[test]
fn test_detect_format_rcs() {
    let lines = vec!["a3 2", "added line"];
    assert_eq!(PatchParser::detect_format(&lines), DiffFormat::Rcs);
}

#[test]
fn test_detect_format_ed() {
    let lines = vec!["3,5c", "new text", "."];
    assert_eq!(PatchParser::detect_format(&lines), DiffFormat::Ed);
}

#[test]
fn test_clean_no_newline() {
    let mut lines = vec![
        "-old line\n".to_string(),
        "\\ No newline at end of file".to_string(),
        "+new line\n".to_string(),
    ];
    PatchParser::clean_no_newline(&mut lines);
    assert_eq!(lines.len(), 2);
    assert_eq!(lines[0], "-old line");
}

#[test]
fn test_escape_unescape_path() {
    assert_eq!(PatchParser::escape_path("simple.txt"), "simple.txt");
    assert_eq!(
        PatchParser::escape_path("path with spaces/file.txt"),
        "\"path with spaces/file.txt\""
    );
    assert_eq!(
        PatchParser::unescape_path("\"path with spaces/file.txt\""),
        "path with spaces/file.txt"
    );
    assert_eq!(PatchParser::unescape_path("simple.txt"), "simple.txt");
}

#[test]
fn test_parse_string_unified() {
    let input = "\
--- a/file.txt\t2024-01-01
+++ b/file.txt\t2024-01-02
@@ -1,3 +1,3 @@
 line1
-old
+new
 line3";
    let parser = PatchParser::new();
    let result = parser.parse_string(input).unwrap();
    assert_eq!(result.format, DiffFormat::Unified);
    assert_eq!(result.generator, DiffGenerator::Diff);
    assert_eq!(result.files.len(), 1);
    assert_eq!(result.files[0].hunks.len(), 1);
}

#[test]
fn test_parse_string_normal() {
    let input = "\
1c1
< old
---
> new";
    let parser = PatchParser::new();
    let result = parser.parse_string(input).unwrap();
    assert_eq!(result.format, DiffFormat::Normal);
    assert_eq!(result.files.len(), 1);
}

#[test]
fn test_parse_empty() {
    let parser = PatchParser::new();
    let result = parser.parse_string("").unwrap();
    assert!(result.files.is_empty());
}

#[test]
fn escaped_paths_read_back_unchanged() {
    for path in [
        "plain.txt",
        "dir with space/a \"quoted\" name.txt",
        "back\\slash and space\\",
        "a \\\" mix",
    ] {
        let written = PatchParser::escape_path(path);
        assert_eq!(PatchParser::unescape_path(&written), path);
    }
    assert_eq!(
        PatchParser::escape_path("a \"b\""),
        "\"a \\\"b\\\"\""
    );
}
