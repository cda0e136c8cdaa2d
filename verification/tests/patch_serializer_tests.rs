use rcompare::patch_engine::PatchEngine;
use rcompare::patch_parser::PatchParser;
use rcompare::patch_serializer::PatchSerializer;
use rcompare::patch_types::PatchSet;

#[test]
fn test_round_trip_unified() {
    let input = "\
--- a/file.txt\t2024-01-01
+++ b/file.txt\t2024-01-02
@@ -1,5 +1,5 @@
 line1
-old2
+new2
 line3
-old4
+new4
 line5
";
    let parser = PatchParser::new();
    let ps = parser.parse_string(input).unwrap();
    let serialized = PatchSerializer::serialize(&ps);

    // Re-parse the serialized output
    let ps2 = parser.parse_string(&serialized).unwrap();
    assert_eq!(ps.files.len(), ps2.files.len());
    assert_eq!(
        ps.files[0].hunks[0].differences.len(),
        ps2.files[0].hunks[0].differences.len()
    );
}

#[test]
fn test_serialize_insert() {
    let input = "\
--- a/file.txt
+++ b/file.txt
@@ -1,2 +1,4 @@
 line1
+added1
+added2
 line2
";
    let parser = PatchParser::new();
    let ps = parser.parse_string(input).unwrap();
    let serialized = PatchSerializer::serialize(&ps);

    assert!(serialized.contains("+added1"));
    assert!(serialized.contains("+added2"));
    assert!(serialized.contains(" line1"));
}

#[test]
fn test_serialize_skips_blended_hunks() {
    let input = "\
--- a/file.txt\t2024-01-01
+++ b/file.txt\t2024-01-02
@@ -3,3 +3,3 @@
 line3
-old4
+new4
 line5
";
    let parser = PatchParser::new();
    let mut ps = parser.parse_string(input).unwrap();

    // Blend original file
    let original = "line1\nline2\nline3\nold4\nline5\nline6\n";
    PatchEngine::blend_file(&mut ps.files[0], original).unwrap();

    // Serialize — should NOT contain the blended context lines
    let serialized = PatchSerializer::serialize(&ps);
    // The blended context (line1, line2, line6) should NOT appear as diff lines
    assert!(!serialized.contains(" line1"));
    assert!(!serialized.contains(" line6"));
    // But the original hunk content should be there
    assert!(serialized.contains("-old4"));
    assert!(serialized.contains("+new4"));
}

#[test]
fn test_serialize_with_function_name() {
    let input = "\
--- a/file.c
+++ b/file.c
@@ -10,3 +10,3 @@ int main()
 line10
-old
+new
 line12
";
    let parser = PatchParser::new();
    let ps = parser.parse_string(input).unwrap();
    let serialized = PatchSerializer::serialize(&ps);
    assert!(serialized.contains("@@ -10,3 +10,3 @@ int main()"));
}

#[test]
fn test_serialize_empty_patchset() {
    let ps = PatchSet::new();
    let serialized = PatchSerializer::serialize(&ps);
    assert!(serialized.is_empty());
}
