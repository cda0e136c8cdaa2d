use rcompare::csv_diff::{is_csv_file, CsvCompareMode, CsvDiffEngine, RowDiffType};
use rcompare::error::RCompareError;
use rcompare::excel_diff::{is_excel_file, CellData, CellKind, ExcelDiffEngine, Sheet, SheetDiffType, Workbook};
use rcompare::image_diff::{is_image_file, ExifMetadata, ImageCompareMode, ImageDiffEngine};
use rcompare::json_diff::{is_json_file, is_yaml_file, JsonDiffEngine, JsonNumber, JsonValue, PathDiffType};

#[test]
fn test_is_csv_file() {
    assert!(is_csv_file("data.csv"));
    assert!(is_csv_file("data.CSV"));
    assert!(is_csv_file("data.tsv"));
    assert!(!is_csv_file("data.txt"));
    assert!(!is_csv_file("data.xlsx"));
}

#[test]
fn test_identical_csvs() {
    let content = "name,age,city\nAlice,30,NYC\nBob,25,LA\n";
    let engine = CsvDiffEngine::new();
    let result = engine.compare_data(content.as_bytes(), content.as_bytes()).unwrap();

    assert_eq!(result.total_rows, 2);
    assert_eq!(result.identical_rows, 2);
    assert_eq!(result.different_rows, 0);
    assert!(result.headers_match);
}

#[test]
fn csv_diff_test_different_values() {
    let left = "name,age,city\nAlice,30,NYC\nBob,25,LA\n";
    let right = "name,age,city\nAlice,31,NYC\nBob,25,SF\n";

    let engine = CsvDiffEngine::new();
    let result = engine.compare_data(left.as_bytes(), right.as_bytes()).unwrap();

    assert_eq!(result.total_rows, 2);
    assert_eq!(result.identical_rows, 0);
    assert_eq!(result.different_rows, 2);
    assert_eq!(result.row_diffs.len(), 2);
}

#[test]
fn csv_diff_test_different_row_counts() {
    let left = "name,age\nAlice,30\nBob,25\nCharlie,35\n";
    let right = "name,age\nAlice,30\n";

    let engine = CsvDiffEngine::new();
    let result = engine.compare_data(left.as_bytes(), right.as_bytes()).unwrap();

    assert_eq!(result.total_rows, 3);
    assert_eq!(result.identical_rows, 1);
    assert_eq!(result.left_only_rows, 2);
    assert_eq!(result.right_only_rows, 0);
}

#[test]
fn csv_column_differences_name_the_columns() {
    let left = "name,age,city\nAlice,30,NYC\n";
    let right = "name,age,city\nAlice,31,NYC\n";
    let result = CsvDiffEngine::new().compare_data(left.as_bytes(), right.as_bytes()).unwrap();
    assert_eq!(result.row_diffs[0].row_num, 1);
    assert_eq!(result.row_diffs[0].diff_type, RowDiffType::Modified);
    let cols = &result.row_diffs[0].column_diffs;
    assert_eq!(cols.len(), 1);
    assert_eq!(cols[0].column, "age");
    assert_eq!(cols[0].index, 1);
    assert_eq!(cols[0].left_value, "30");
    assert_eq!(cols[0].right_value, "31");
}

#[test]
fn csv_by_key_matches_rows_in_any_order() {
    let left = "id,name\n2,Bob\n1,Alice\n";
    let right = "id,name\n1,Alice\n3,Carol\n2,Bobby\n";
    let engine = CsvDiffEngine::new().with_key_columns(vec!["id".to_string()]);
    assert_eq!(engine.mode, CsvCompareMode::ByKey);
    let result = engine.compare_data(left.as_bytes(), right.as_bytes()).unwrap();
    assert_eq!(result.total_rows, 3);
    assert_eq!(result.identical_rows, 1);
    assert_eq!(result.different_rows, 1);
    assert_eq!(result.right_only_rows, 1);
    assert_eq!(result.row_diffs.len(), 2);
    assert_eq!(result.row_diffs[0].row_num, 2);
    assert_eq!(result.row_diffs[0].diff_type, RowDiffType::Modified);
    assert_eq!(result.row_diffs[1].row_num, 3);
    assert_eq!(result.row_diffs[1].diff_type, RowDiffType::RightOnly);
}

#[test]
fn csv_by_key_without_usable_key_is_refused() {
    let engine = CsvDiffEngine::new().with_key_columns(vec!["missing".to_string()]);
    let err = engine.compare_data(b"id\n1\n", b"id\n1\n").unwrap_err();
    match err {
        RCompareError::Comparison(m) => assert_eq!(m, "No valid key columns found in CSV headers"),
        other => panic!("unexpected error {:?}", other),
    }
}

#[test]
fn csv_limits_recorded_differences() {
    let left = "a\n1\n2\n3\n";
    let right = "a\n4\n5\n6\n";
    let result = CsvDiffEngine::new().with_max_row_diffs(2).compare_data(left.as_bytes(), right.as_bytes()).unwrap();
    assert_eq!(result.different_rows, 3);
    assert_eq!(result.row_diffs.len(), 2);
}

#[test]
fn csv_ragged_records_are_an_error() {
    let err = CsvDiffEngine::new().compare_data(b"a,b\n1,2\n3\n", b"a,b\n1,2\n").unwrap_err();
    match err {
        RCompareError::Io(m) => assert!(m.starts_with("Failed to read left CSV records: ")),
        other => panic!("unexpected error {:?}", other),
    }
}

#[test]
fn test_is_excel_file() {
    assert!(is_excel_file("data.xlsx"));
    assert!(is_excel_file("data.XLSX"));
    assert!(is_excel_file("data.xls"));
    assert!(is_excel_file("data.xlsm"));
    assert!(is_excel_file("data.xlsb"));
    assert!(!is_excel_file("data.txt"));
    assert!(!is_excel_file("data.csv"));
}

fn int_cell(v: i64) -> CellData {
    CellData { kind: CellKind::Int, bits: v as u64, text: String::new(), display: v.to_string() }
}

fn sheet(name: &str, rows: Vec<Vec<i64>>) -> Sheet {
    let height = rows.len();
    let width = if height > 0 { rows[0].len() } else { 0 };
    let cells = rows.into_iter().flatten().map(int_cell).collect();
    Sheet { name: name.to_string(), start_row: 0, start_col: 0, height, width, cells }
}

#[test]
fn excel_compares_sheets_by_name() {
    let left = Workbook {
        sheet_names: vec!["Data".to_string(), "Old".to_string()],
        sheets: vec![sheet("Data", vec![vec![1, 2], vec![3, 4]]), sheet("Old", vec![vec![9]])],
    };
    let right = Workbook {
        sheet_names: vec!["Data".to_string()],
        sheets: vec![sheet("Data", vec![vec![1, 2], vec![3, 5]])],
    };
    let result = ExcelDiffEngine::new().compare_workbooks(&left, &right);
    assert_eq!(result.total_sheets, 2);
    assert_eq!(result.different_sheets, 1);
    assert_eq!(result.left_only_sheets, 1);
    assert!(!result.sheet_names_match);
    assert_eq!(result.sheet_diffs[0].sheet_name, "Data");
    assert_eq!(result.sheet_diffs[0].diff_type, SheetDiffType::Modified);
    assert_eq!(result.sheet_diffs[0].different_cells, 1);
    assert_eq!(result.sheet_diffs[0].cell_diffs[0].row, 1);
    assert_eq!(result.sheet_diffs[0].cell_diffs[0].col, 1);
    assert_eq!(result.sheet_diffs[0].cell_diffs[0].left_value, "4");
    assert_eq!(result.sheet_diffs[0].cell_diffs[0].right_value, "5");
    assert_eq!(result.sheet_diffs[1].diff_type, SheetDiffType::LeftOnly);
}

#[test]
fn excel_cells_beyond_the_smaller_sheet_differ() {
    let left = Workbook { sheet_names: vec!["S".to_string()], sheets: vec![sheet("S", vec![vec![1]])] };
    let right = Workbook { sheet_names: vec!["S".to_string()], sheets: vec![sheet("S", vec![vec![1, 2]])] };
    let result = ExcelDiffEngine::new().compare_workbooks(&left, &right);
    let d = &result.sheet_diffs[0];
    assert_eq!(d.total_rows, 1);
    assert_eq!(d.total_cols, 2);
    assert_eq!(d.different_cells, 1);
    assert_eq!(d.cell_diffs[0].left_value, "");
    assert_eq!(d.cell_diffs[0].right_value, "2");
}

#[test]
fn excel_identical_workbook() {
    let w = Workbook { sheet_names: vec!["S".to_string()], sheets: vec![sheet("S", vec![vec![1, 2]])] };
    let result = ExcelDiffEngine::new().compare_workbooks(&w, &w.clone());
    assert_eq!(result.identical_sheets, 1);
    assert!(result.sheet_diffs.is_empty());
    assert!(result.sheet_names_match);
}

fn obj(members: Vec<(&str, JsonValue)>) -> JsonValue {
    JsonValue::Object(members.into_iter().map(|(k, v)| (k.to_string(), v)).collect())
}

fn num(v: f64) -> JsonValue {
    JsonValue::Number(JsonNumber { bits: v.to_bits(), text: format!("{}", v) })
}

fn text(s: &str) -> JsonValue {
    JsonValue::String(s.to_string())
}

#[test]
fn test_identical_json() {
    let make = || obj(vec![("active", JsonValue::Bool(true)), ("count", num(42.0)), ("name", text("test"))]);
    let engine = JsonDiffEngine::new();
    let result = engine.compare_json_values(&make(), &make()).unwrap();

    assert_eq!(result.identical_paths, 3);
    assert_eq!(result.different_paths, 0);
    assert_eq!(result.left_only_paths, 0);
    assert_eq!(result.right_only_paths, 0);
}

#[test]
fn json_diff_test_different_values() {
    let left = obj(vec![("count", num(42.0)), ("name", text("test"))]);
    let right = obj(vec![("count", num(100.0)), ("name", text("test"))]);

    let engine = JsonDiffEngine::new();
    let result = engine.compare_json_values(&left, &right).unwrap();

    assert_eq!(result.identical_paths, 1);
    assert_eq!(result.different_paths, 1);
    assert_eq!(result.path_diffs.len(), 1);
}

#[test]
fn test_missing_keys() {
    let left = obj(vec![("count", num(42.0)), ("extra", text("left")), ("name", text("test"))]);
    let right = obj(vec![("count", num(42.0)), ("name", text("test")), ("new", text("right"))]);

    let engine = JsonDiffEngine::new();
    let result = engine.compare_json_values(&left, &right).unwrap();

    assert_eq!(result.identical_paths, 2);
    assert_eq!(result.left_only_paths, 1);
    assert_eq!(result.right_only_paths, 1);
}

#[test]
fn test_nested_json() {
    let left = obj(vec![("user", obj(vec![("age", num(30.0)), ("name", text("alice"))]))]);
    let right = obj(vec![("user", obj(vec![("age", num(31.0)), ("name", text("alice"))]))]);

    let engine = JsonDiffEngine::new();
    let result = engine.compare_json_values(&left, &right).unwrap();

    assert_eq!(result.identical_paths, 1);
    assert_eq!(result.different_paths, 1);
}

#[test]
fn json_paths_and_kinds() {
    let left = obj(vec![("a", JsonValue::Array(vec![num(1.0), text("x")])), ("b", JsonValue::Null)]);
    let right = obj(vec![("a", JsonValue::Array(vec![num(1.0), num(2.0)])), ("b", JsonValue::Null)]);
    let result = JsonDiffEngine::new().compare_json_values(&left, &right).unwrap();
    assert_eq!(result.total_paths, 3);
    assert_eq!(result.path_diffs.len(), 1);
    assert_eq!(result.path_diffs[0].path, "root.a[1]");
    assert_eq!(result.path_diffs[0].diff_type, PathDiffType::TypeDifferent);
    assert_eq!(result.path_diffs[0].left_value, "\"x\"");
    assert_eq!(result.path_diffs[0].right_value, "2");
}

#[test]
fn json_missing_values_are_shown_as_missing() {
    let left = obj(vec![("k", JsonValue::Bool(false))]);
    let right = obj(vec![]);
    let result = JsonDiffEngine::new().compare_json_values(&left, &right).unwrap();
    assert_eq!(result.path_diffs[0].diff_type, PathDiffType::LeftOnly);
    assert_eq!(result.path_diffs[0].left_value, "false");
    assert_eq!(result.path_diffs[0].right_value, "(missing)");
}

#[test]
fn json_zero_signs_are_equal() {
    let left = obj(vec![("z", num(0.0))]);
    let right = obj(vec![("z", num(-0.0))]);
    let result = JsonDiffEngine::new().compare_json_values(&left, &right).unwrap();
    assert_eq!(result.identical_paths, 1);
}

#[test]
fn test_is_json_file() {
    assert!(is_json_file("data.json"));
    assert!(is_json_file("data.JSON"));
    assert!(is_json_file("config.jsonc"));
    assert!(!is_json_file("data.txt"));
}

#[test]
fn test_is_yaml_file() {
    assert!(is_yaml_file("config.yaml"));
    assert!(is_yaml_file("config.yml"));
    assert!(is_yaml_file("data.YAML"));
    assert!(!is_yaml_file("data.txt"));
}

#[test]
fn test_is_image_file() {
    assert!(is_image_file("test.png"));
    assert!(is_image_file("test.JPG"));
    assert!(is_image_file("test.jpeg"));
    assert!(!is_image_file("test.txt"));
    assert!(!is_image_file("test.rs"));
}

#[test]
fn test_exif_comparison() {
    let left_exif = ExifMetadata {
        make: Some("Canon".to_string()),
        model: Some("EOS 5D Mark IV".to_string()),
        iso: Some("400".to_string()),
        ..Default::default()
    };

    let right_exif = ExifMetadata {
        make: Some("Canon".to_string()),
        model: Some("EOS 5D Mark IV".to_string()),
        iso: Some("800".to_string()),
        ..Default::default()
    };

    let engine = ImageDiffEngine::new().with_exif_compare(true);
    let diffs = engine.compare_exif_metadata(&Some(left_exif), &Some(right_exif));

    assert_eq!(diffs.len(), 1);
    assert_eq!(diffs[0].tag_name, "ISO");
    assert_eq!(diffs[0].left_value, Some("400".to_string()));
    assert_eq!(diffs[0].right_value, Some("800".to_string()));
}

#[test]
fn test_exif_missing() {
    let left_exif = ExifMetadata { make: Some("Canon".to_string()), ..Default::default() };

    let engine = ImageDiffEngine::new().with_exif_compare(true);
    let diffs = engine.compare_exif_metadata(&Some(left_exif), &None);

    assert_eq!(diffs.len(), 1);
    assert_eq!(diffs[0].tag_name, "EXIF Data");
    assert_eq!(diffs[0].left_value, Some("Present".to_string()));
    assert_eq!(diffs[0].right_value, None);
}

#[test]
fn test_tolerance_adjustment() {
    let left = vec![[100u8, 100, 100, 255]; 100];
    let right = vec![[102u8, 102, 102, 255]; 100];

    let engine_low = ImageDiffEngine::new().with_tolerance(1);
    assert_eq!(engine_low.count_different_pixels(&left, &right), Some(100));

    let engine_high = ImageDiffEngine::new().with_tolerance(3);
    assert_eq!(engine_high.count_different_pixels(&left, &right), Some(0));
}

#[test]
fn image_thresholds_by_mode() {
    let exact = ImageDiffEngine::new().with_mode(ImageCompareMode::Exact).with_tolerance(0);
    assert_eq!(exact.channel_threshold(), Some(0));
    let thresh = ImageDiffEngine::new().with_mode(ImageCompareMode::Threshold(10)).with_tolerance(4);
    assert_eq!(thresh.channel_threshold(), Some(10));
    let perceptual = ImageDiffEngine::new().with_mode(ImageCompareMode::Perceptual);
    assert_eq!(perceptual.count_different_pixels(&vec![[0u8; 4]], &vec![[9u8; 4]]), None);
}

fn float_sheet(values: Vec<f64>) -> Workbook {
    let cells: Vec<CellData> = values
        .iter()
        .map(|f| CellData { kind: CellKind::Float, bits: f.to_bits(), text: String::new(), display: f.to_string() })
        .collect();
    let sheet = Sheet { name: "F".to_string(), start_row: 0, start_col: 0, height: 1, width: cells.len(), cells };
    Workbook { sheet_names: vec!["F".to_string()], sheets: vec![sheet] }
}

#[test]
fn excel_floats_compare_as_f64_does() {
    let zeros = ExcelDiffEngine::new().compare_workbooks(&float_sheet(vec![0.0, 1.5]), &float_sheet(vec![-0.0, 1.5]));
    assert_eq!(zeros.identical_sheets, 1);
    let nan = float_sheet(vec![f64::NAN]);
    let with_nan = ExcelDiffEngine::new().compare_workbooks(&nan, &nan.clone());
    assert_eq!(with_nan.different_sheets, 1);
    assert_eq!(with_nan.sheet_diffs[0].different_cells, 1);
}
