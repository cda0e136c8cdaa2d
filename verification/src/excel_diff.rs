//! Comparison of spreadsheet workbooks, sheet by sheet and cell by cell.
//! Reading a workbook is done by the caller, which hands over each sheet's
//! cells as `CellData`.

use crate::csv_diff::{insert_sorted, keys_view, strictly_sorted};
use crate::file_kinds::{extension_in, has_extension_in};
use crate::text::{chars_of, same_text};
use vstd::prelude::*;

verus! {

/// The kind of a cell's value.
#[derive(Debug, Clone, Copy, PartialEq, Eq, Structural)]
pub enum CellKind {
    Int,
    Float,
    Text,
    Bool,
    DateTime,
    DateTimeIso,
    DurationIso,
    Error,
    Empty,
}

/// A cell of a sheet: its value (numbers by their bit pattern in `bits`,
/// texts in `text`) and how it is displayed in a difference report.
#[derive(Debug, Clone)]
pub struct CellData {
    pub kind: CellKind,
    pub bits: u64,
    pub text: String,
    pub display: String,
}

/// A sheet: a rectangle of `height` rows and `width` columns of cells, in
/// row order, whose first cell stands at (`start_row`, `start_col`).
#[derive(Debug, Clone)]
pub struct Sheet {
    pub name: String,
    pub start_row: u32,
    pub start_col: u32,
    pub height: usize,
    pub width: usize,
    pub cells: Vec<CellData>,
}

/// A workbook: the names of all its sheets, and the sheets that could be
/// read, in the order of their names.
#[derive(Debug, Clone)]
pub struct Workbook {
    pub sheet_names: Vec<String>,
    pub sheets: Vec<Sheet>,
}

/// How a sheet differs.
#[derive(Debug, Clone, Copy, PartialEq, Eq, Structural)]
pub enum SheetDiffType {
    /// Sheet exists in both but data differs.
    Modified,
    /// Sheet only exists in left.
    LeftOnly,
    /// Sheet only exists in right.
    RightOnly,
}

/// A differing cell (row and column count from 0).
#[derive(Debug, Clone)]
pub struct CellDiff {
    pub row: usize,
    pub col: usize,
    pub left_value: String,
    pub right_value: String,
}

/// A difference in a sheet.
#[derive(Debug, Clone)]
pub struct SheetDiff {
    pub sheet_name: String,
    pub diff_type: SheetDiffType,
    pub total_rows: usize,
    pub total_cols: usize,
    pub different_cells: usize,
    /// Cell differences, up to the engine's limit.
    pub cell_diffs: Vec<CellDiff>,
}

/// Result of a workbook comparison.
#[derive(Debug, Clone)]
pub struct ExcelDiffResult {
    pub total_sheets: usize,
    pub different_sheets: usize,
    pub left_only_sheets: usize,
    pub right_only_sheets: usize,
    pub identical_sheets: usize,
    pub sheet_names_match: bool,
    pub left_sheet_names: Vec<String>,
    pub right_sheet_names: Vec<String>,
    /// Sheet differences, up to the engine's limit.
    pub sheet_diffs: Vec<SheetDiff>,
}

/// Settings of a workbook comparison.
pub struct ExcelDiffEngine {
    pub max_sheet_diffs: usize,
    pub max_cell_diffs_per_sheet: usize,
}

/// What identifies a cell's value: kind, bits and text.
pub type CellValueModel = (CellKind, u64, Seq<char>);

/// Model of a cell: its value and its display text.
pub type CellModel = (CellValueModel, Seq<char>);

/// Model of a sheet: start row and column, height, width, cells.
pub type SheetModel = (int, int, int, int, Seq<CellModel>);

/// Model of a cell difference.
pub type CellDiffModel = (usize, usize, Seq<char>, Seq<char>);

/// Model of a sheet difference.
pub type SheetDiffModel = (Seq<char>, SheetDiffType, usize, usize, usize, Seq<CellDiffModel>);

/// Running counts of a cell comparison: differing cells and recorded ones.
pub type CellTally = (int, Seq<CellDiffModel>);

/// Running counts of a sheet comparison: different, left only, right only,
/// identical sheets, and the recorded sheet differences.
pub type SheetTally = (int, int, int, int, Seq<SheetDiffModel>);

pub open spec fn cell_view(c: CellData) -> CellModel {
    ((c.kind, c.bits, c.text@), c.display@)
}

pub open spec fn sheet_view(s: Sheet) -> SheetModel {
    (
        s.start_row as int,
        s.start_col as int,
        s.height as int,
        s.width as int,
        s.cells@.map_values(|c: CellData| cell_view(c)),
    )
}

/// Sheets as name and model.
pub open spec fn sheets_view(v: Seq<Sheet>) -> Seq<(Seq<char>, SheetModel)> {
    v.map_values(|s: Sheet| (s.name@, sheet_view(s)))
}

pub open spec fn names_view(v: Seq<String>) -> Seq<Seq<char>> {
    v.map_values(|s: String| s@)
}

pub open spec fn cell_diff_view(d: CellDiff) -> CellDiffModel {
    (d.row, d.col, d.left_value@, d.right_value@)
}

pub open spec fn sheet_diff_view(d: SheetDiff) -> SheetDiffModel {
    (
        d.sheet_name@,
        d.diff_type,
        d.total_rows,
        d.total_cols,
        d.different_cells,
        d.cell_diffs@.map_values(|c: CellDiff| cell_diff_view(c)),
    )
}

pub open spec fn sheet_diffs_view(v: Seq<SheetDiff>) -> Seq<SheetDiffModel> {
    v.map_values(|d: SheetDiff| sheet_diff_view(d))
}

/// A sheet whose cells fill its rectangle.
pub open spec fn sheet_wf(s: SheetModel) -> bool {
    s.2 >= 0 && s.3 >= 0 && s.4.len() == s.2 * s.3
}

/// The cell at an absolute position, if the sheet's rectangle holds it.
pub open spec fn value_at(s: SheetModel, row: int, col: int) -> Option<CellModel> {
    let r = row - s.0;
    let c = col - s.1;
    if 0 <= r < s.2 && 0 <= c < s.3 {
        Some(s.4[r * s.3 + c])
    } else {
        None
    }
}

/// The value of an optional cell.
pub open spec fn value_of(c: Option<CellModel>) -> Option<CellValueModel> {
    match c {
        Some(x) => Some(x.0),
        None => None,
    }
}

/// Whether the bits are those of a NaN double: all exponent bits set and
/// a nonzero fraction.
pub open spec fn is_nan_bits(b: u64) -> bool {
    (b / 0x10_0000_0000_0000) % 0x800 == 0x7ff && b % 0x10_0000_0000_0000 != 0
}

/// Whether the bits are those of a zero double, of either sign.
pub open spec fn is_zero_bits(b: u64) -> bool {
    b % 0x8000_0000_0000_0000 == 0
}

/// Whether two doubles, by their bits, compare equal as `f64` does: NaN
/// equals nothing, and the two zeros are equal.
pub open spec fn float_bits_equal(a: u64, b: u64) -> bool {
    (a == b && !is_nan_bits(a)) || (is_zero_bits(a) && is_zero_bits(b))
}

/// Whether two optional cell values are equal: of the same kind and text,
/// and with equal numbers (floats compared as `f64` compares them).
pub open spec fn same_value(a: Option<CellValueModel>, b: Option<CellValueModel>) -> bool {
    match (a, b) {
        (Some(x), Some(y)) => x.0 == y.0 && x.2 == y.2 && if x.0 == CellKind::Float {
            float_bits_equal(x.1, y.1)
        } else {
            x.1 == y.1
        },
        (None, None) => true,
        _ => false,
    }
}

/// The display of an optional cell; empty for no cell.
pub open spec fn display_of(c: Option<CellModel>) -> Seq<char> {
    match c {
        Some(x) => x.1,
        None => Seq::empty(),
    }
}

/// Two sheets of equal size whose cells at positions (row, col) below
/// that size hold equal values.
pub open spec fn sheets_equal(l: SheetModel, r: SheetModel) -> bool {
    &&& l.2 == r.2
    &&& l.3 == r.3
    &&& forall|row: int, col: int|
        0 <= row < l.2 && 0 <= col < l.3 ==> same_value(value_of(value_at(l, row, col)), value_of(value_at(r, row, col)))
}

/// The cell of a sheet at (row, col) as compared: none beyond its size.
pub open spec fn compared_cell(s: SheetModel, row: int, col: int) -> Option<CellModel> {
    if row < s.2 && col < s.3 {
        value_at(s, row, col)
    } else {
        None
    }
}

pub open spec fn larger(a: int, b: int) -> int {
    if a >= b {
        a
    } else {
        b
    }
}

/// One cell of a sheet comparison.
pub open spec fn cell_step(l: SheetModel, r: SheetModel, max: int, t: CellTally, row: int, col: int) -> CellTally {
    let a = compared_cell(l, row, col);
    let b = compared_cell(r, row, col);
    if !same_value(value_of(a), value_of(b)) {
        (
            t.0 + 1,
            if t.1.len() < max {
                t.1.push((row as usize, col as usize, display_of(a), display_of(b)))
            } else {
                t.1
            },
        )
    } else {
        t
    }
}

/// The comparison of the first `c` cells of row `row`.
pub open spec fn cols_fold(l: SheetModel, r: SheetModel, max: int, t: CellTally, row: int, c: int) -> CellTally
    decreases c,
{
    if c <= 0 {
        t
    } else {
        cell_step(l, r, max, cols_fold(l, r, max, t, row, c - 1), row, c - 1)
    }
}

/// The comparison of the first `n` rows, `cols` cells each.
pub open spec fn rows_fold(l: SheetModel, r: SheetModel, max: int, cols: int, n: int) -> CellTally
    decreases n,
{
    if n <= 0 {
        (0, Seq::empty())
    } else {
        cols_fold(l, r, max, rows_fold(l, r, max, cols, n - 1), n - 1, cols)
    }
}

/// The difference of two sheets named `name`.
pub open spec fn sheet_comparison(name: Seq<char>, l: SheetModel, r: SheetModel, max: int) -> SheetDiffModel {
    let rows = larger(l.2, r.2);
    let cols = larger(l.3, r.3);
    let t = rows_fold(l, r, max, cols, rows);
    (name, SheetDiffType::Modified, rows as usize, cols as usize, t.0 as usize, t.1)
}

/// The last sheet named `name`.
pub open spec fn sheet_named(sheets: Seq<(Seq<char>, SheetModel)>, name: Seq<char>) -> Option<SheetModel>
    decreases sheets.len(),
{
    if sheets.len() == 0 {
        None
    } else if sheets.last().0 == name {
        Some(sheets.last().1)
    } else {
        sheet_named(sheets.drop_last(), name)
    }
}

/// Records a sheet difference while fewer than `max` are recorded.
pub open spec fn record_sheet(v: Seq<SheetDiffModel>, max: int, d: SheetDiffModel) -> Seq<SheetDiffModel> {
    if v.len() < max {
        v.push(d)
    } else {
        v
    }
}

/// One sheet of a workbook comparison.
pub open spec fn sheet_step(
    max_sheets: int,
    max_cells: int,
    t: SheetTally,
    name: Seq<char>,
    l: Option<SheetModel>,
    r: Option<SheetModel>,
) -> SheetTally {
    match (l, r) {
        (Some(a), Some(b)) => if sheets_equal(a, b) {
            (t.0, t.1, t.2, t.3 + 1, t.4)
        } else {
            (t.0 + 1, t.1, t.2, t.3, record_sheet(t.4, max_sheets, sheet_comparison(name, a, b, max_cells)))
        },
        (Some(_), None) => (
            t.0,
            t.1 + 1,
            t.2,
            t.3,
            record_sheet(t.4, max_sheets, (name, SheetDiffType::LeftOnly, 0, 0, 0, Seq::empty())),
        ),
        (None, Some(_)) => (
            t.0,
            t.1,
            t.2 + 1,
            t.3,
            record_sheet(t.4, max_sheets, (name, SheetDiffType::RightOnly, 0, 0, 0, Seq::empty())),
        ),
        (None, None) => t,
    }
}

/// The comparison of the sheets named `names`, in order.
pub open spec fn sheets_fold(
    max_sheets: int,
    max_cells: int,
    l: Seq<(Seq<char>, SheetModel)>,
    r: Seq<(Seq<char>, SheetModel)>,
    names: Seq<Seq<char>>,
) -> SheetTally
    decreases names.len(),
{
    if names.len() == 0 {
        (0, 0, 0, 0, Seq::empty())
    } else {
        sheet_step(
            max_sheets,
            max_cells,
            sheets_fold(max_sheets, max_cells, l, r, names.drop_last()),
            names.last(),
            sheet_named(l, names.last()),
            sheet_named(r, names.last()),
        )
    }
}

/// Whether a workbook's sheets fill their rectangles.
pub open spec fn workbook_wf(w: Workbook) -> bool {
    forall|i: int| 0 <= i < w.sheets@.len() ==> sheet_wf(#[trigger] sheet_view(w.sheets@[i]))
}

/// The comparison of two workbooks, whose read sheets' names, taken
/// together and in increasing order, are `names`.
pub open spec fn workbooks_ok(e: ExcelDiffEngine, l: Workbook, r: Workbook, names: Seq<Seq<char>>, res: ExcelDiffResult) -> bool {
    let ls = sheets_view(l.sheets@);
    let rs = sheets_view(r.sheets@);
    let t = sheets_fold(e.max_sheet_diffs as int, e.max_cell_diffs_per_sheet as int, ls, rs, names);
    &&& strictly_sorted(names)
    &&& forall|n: Seq<char>| names.contains(n) <==> (sheet_named(ls, n) is Some || sheet_named(rs, n) is Some)
    &&& res.total_sheets == names.len()
    &&& res.different_sheets == t.0
    &&& res.left_only_sheets == t.1
    &&& res.right_only_sheets == t.2
    &&& res.identical_sheets == t.3
    &&& sheet_diffs_view(res.sheet_diffs@) == t.4
    &&& res.sheet_names_match == (names_view(l.sheet_names@) == names_view(r.sheet_names@))
    &&& names_view(res.left_sheet_names@) == names_view(l.sheet_names@)
    &&& names_view(res.right_sheet_names@) == names_view(r.sheet_names@)
}

proof fn lemma_index_in_bounds(r: int, c: int, h: int, w: int)
    by (nonlinear_arith)
    requires
        0 <= r < h,
        0 <= c < w,
    ensures
        0 <= r * w,
        r * w + c < h * w,
{
}

pub open spec fn opt_cell_view(c: Option<&CellData>) -> Option<CellModel> {
    match c {
        Some(x) => Some(cell_view(*x)),
        None => None,
    }
}

/// The cell at an absolute position, if the sheet's rectangle holds it.
fn cell_at(s: &Sheet, row: usize, col: usize) -> (res: Option<&CellData>)
    requires
        sheet_wf(sheet_view(*s)),
    ensures
        opt_cell_view(res) == value_at(sheet_view(*s), row as int, col as int),
{
    let ghost sv = sheet_view(*s);
    if row < s.start_row as usize || col < s.start_col as usize {
        return None;
    }
    let r = row - s.start_row as usize;
    let c = col - s.start_col as usize;
    if r < s.height && c < s.width {
        proof {
            lemma_index_in_bounds(r as int, c as int, s.height as int, s.width as int);
            assert(sv.4.len() == s.cells@.len());
            assert(s.cells@.len() == s.height * s.width);
            assert(r * s.width + c < s.cells@.len());
            assert(s.cells@.len() == s.cells.len());
        }
        let m: usize = r * s.width;
        let i = m + c;
        Some(&s.cells[i])
    } else {
        None
    }
}

/// Whether two doubles, given by their bits, compare equal as `f64` does.
fn floats_equal(a: u64, b: u64) -> (res: bool)
    ensures
        res == float_bits_equal(a, b),
{
    let a_nan = (a / 0x10_0000_0000_0000) % 0x800 == 0x7ff && a % 0x10_0000_0000_0000 != 0;
    (a == b && !a_nan) || (a % 0x8000_0000_0000_0000 == 0 && b % 0x8000_0000_0000_0000 == 0)
}

/// Whether two cells hold equal values.
fn values_equal(a: Option<&CellData>, b: Option<&CellData>) -> (res: bool)
    ensures
        res == same_value(value_of(opt_cell_view(a)), value_of(opt_cell_view(b))),
{
    match (a, b) {
        (Some(x), Some(y)) => x.kind == y.kind && same_text(x.text.as_str(), y.text.as_str()) && if x.kind
            == CellKind::Float {
            floats_equal(x.bits, y.bits)
        } else {
            x.bits == y.bits
        },
        (None, None) => true,
        _ => false,
    }
}

/// The display of an optional cell; empty for no cell.
fn display_text(c: Option<&CellData>) -> (res: String)
    ensures
        res@ == display_of(opt_cell_view(c)),
{
    match c {
        Some(x) => x.display.as_str().to_owned(),
        None => String::new(),
    }
}

/// Whether two sheets have equal size and equal values within it.
fn ranges_equal(l: &Sheet, r: &Sheet) -> (res: bool)
    requires
        sheet_wf(sheet_view(*l)),
        sheet_wf(sheet_view(*r)),
    ensures
        res == sheets_equal(sheet_view(*l), sheet_view(*r)),
{
    let ghost lv = sheet_view(*l);
    let ghost rv = sheet_view(*r);
    if l.height != r.height || l.width != r.width {
        return false;
    }
    let rows = l.height;
    let cols = l.width;
    for row in 0..rows
        invariant
            rows == l.height,
            cols == l.width,
            lv == sheet_view(*l),
            rv == sheet_view(*r),
            sheet_wf(lv),
            sheet_wf(rv),
            forall|i: int, j: int|
                0 <= i < row && 0 <= j < cols ==> same_value(value_of(value_at(lv, i, j)), value_of(value_at(rv, i, j))),
    {
        for col in 0..cols
            invariant
                rows == l.height,
                cols == l.width,
                lv == sheet_view(*l),
                rv == sheet_view(*r),
                sheet_wf(lv),
                sheet_wf(rv),
                row < rows,
                forall|i: int, j: int|
                    0 <= i < row && 0 <= j < cols ==> same_value(value_of(value_at(lv, i, j)), value_of(value_at(rv, i, j))),
                forall|j: int| 0 <= j < col ==> same_value(value_of(value_at(lv, row as int, j)), value_of(value_at(rv, row as int, j))),
        {
            let a = cell_at(l, row, col);
            let b = cell_at(r, row, col);
            if !values_equal(a, b) {
                return false;
            }
        }
    }
    true
}

/// Running counts of a cell comparison.
struct CellCounts {
    different: usize,
    diffs: Vec<CellDiff>,
}

spec fn cell_counts_view(c: CellCounts) -> CellTally {
    (c.different as int, c.diffs@.map_values(|d: CellDiff| cell_diff_view(d)))
}

impl ExcelDiffEngine {
    pub fn new() -> (res: Self)
        ensures
            res.max_sheet_diffs == 10,
            res.max_cell_diffs_per_sheet == 20,
    {
        ExcelDiffEngine { max_sheet_diffs: 10, max_cell_diffs_per_sheet: 20 }
    }

    pub fn with_max_sheet_diffs(self, max: usize) -> (res: Self)
        ensures
            res.max_sheet_diffs == max,
            res.max_cell_diffs_per_sheet == self.max_cell_diffs_per_sheet,
    {
        ExcelDiffEngine { max_sheet_diffs: max, ..self }
    }

    pub fn with_max_cell_diffs_per_sheet(self, max: usize) -> (res: Self)
        ensures
            res.max_cell_diffs_per_sheet == max,
            res.max_sheet_diffs == self.max_sheet_diffs,
    {
        ExcelDiffEngine { max_cell_diffs_per_sheet: max, ..self }
    }

    /// The cell differences of two sheets named `name`.
    fn compare_ranges(&self, name: &str, l: &Sheet, r: &Sheet) -> (res: SheetDiff)
        requires
            sheet_wf(sheet_view(*l)),
            sheet_wf(sheet_view(*r)),
            larger(l.height as int, r.height as int) * larger(l.width as int, r.width as int) <= usize::MAX,
        ensures
            sheet_diff_view(res) == sheet_comparison(name@, sheet_view(*l), sheet_view(*r), self.max_cell_diffs_per_sheet as int),
    {
        let ghost lv = sheet_view(*l);
        let ghost rv = sheet_view(*r);
        let ghost max = self.max_cell_diffs_per_sheet as int;
        let rows = if l.height >= r.height { l.height } else { r.height };
        let cols = if l.width >= r.width { l.width } else { r.width };
        let mut t = CellCounts { different: 0, diffs: Vec::new() };
        assert(cell_counts_view(t) =~= rows_fold(lv, rv, max, cols as int, 0));
        for row in 0..rows
            invariant
                rows == larger(l.height as int, r.height as int),
                cols == larger(l.width as int, r.width as int),
                rows * cols <= usize::MAX,
                lv == sheet_view(*l),
                rv == sheet_view(*r),
                sheet_wf(lv),
                sheet_wf(rv),
                max == self.max_cell_diffs_per_sheet as int,
                cell_counts_view(t) == rows_fold(lv, rv, max, cols as int, row as int),
                t.different <= row * cols,
        {
            let ghost start = cell_counts_view(t);
            for col in 0..cols
                invariant
                    rows == larger(l.height as int, r.height as int),
                    cols == larger(l.width as int, r.width as int),
                    rows * cols <= usize::MAX,
                    row < rows,
                    lv == sheet_view(*l),
                    rv == sheet_view(*r),
                    sheet_wf(lv),
                    sheet_wf(rv),
                    max == self.max_cell_diffs_per_sheet as int,
                    start == rows_fold(lv, rv, max, cols as int, row as int),
                    cell_counts_view(t) == cols_fold(lv, rv, max, start, row as int, col as int),
                    t.different <= row * cols + col,
            {
                proof {
                    assert(row * cols + col < rows * cols) by (nonlinear_arith)
                        requires
                            row < rows,
                            col < cols,
                    ;
                }
                let a = if row < l.height && col < l.width { cell_at(l, row, col) } else { None };
                let b = if row < r.height && col < r.width { cell_at(r, row, col) } else { None };
                assert(opt_cell_view(a) == compared_cell(lv, row as int, col as int));
                assert(opt_cell_view(b) == compared_cell(rv, row as int, col as int));
                if !values_equal(a, b) {
                    t.different = t.different + 1;
                    if t.diffs.len() < self.max_cell_diffs_per_sheet {
                        let d = CellDiff { row, col, left_value: display_text(a), right_value: display_text(b) };
                        let ghost before = t.diffs@;
                        t.diffs.push(d);
                        assert(t.diffs@.map_values(|d: CellDiff| cell_diff_view(d)) =~= before.map_values(
                            |d: CellDiff| cell_diff_view(d),
                        ).push(cell_diff_view(d)));
                    }
                }
            }
            proof {
                assert((row + 1) * cols == row * cols + cols) by (nonlinear_arith);
            }
        }
        SheetDiff {
            sheet_name: name.to_owned(),
            diff_type: SheetDiffType::Modified,
            total_rows: rows,
            total_cols: cols,
            different_cells: t.different,
            cell_diffs: t.diffs,
        }
    }
}

/// Whether every pair of sheets of two workbooks can be compared cell by
/// cell with a machine-word count of cells.
pub open spec fn sizes_fit(l: Workbook, r: Workbook) -> bool {
    forall|i: int, j: int|
        0 <= i < l.sheets@.len() && 0 <= j < r.sheets@.len() ==> larger(
            #[trigger] l.sheets@[i].height as int,
            #[trigger] r.sheets@[j].height as int,
        ) * larger(l.sheets@[i].width as int, r.sheets@[j].width as int) <= usize::MAX
}

proof fn lemma_sheet_named_some(s: Seq<(Seq<char>, SheetModel)>, n: Seq<char>)
    ensures
        sheet_named(s, n) is Some <==> exists|j: int| 0 <= j < s.len() && s[j].0 == n,
        sheet_named(s, n) matches Some(m) ==> exists|j: int| 0 <= j < s.len() && s[j].0 == n && s[j].1 == m,
    decreases s.len(),
{
    if s.len() > 0 {
        lemma_sheet_named_some(s.drop_last(), n);
        if s.last().0 != n {
            assert forall|j: int| 0 <= j < s.len() && s[j].0 == n implies 0 <= j < s.drop_last().len()
                && s.drop_last()[j].0 == n by {}
            if sheet_named(s, n) is Some {
                let j = choose|j: int| 0 <= j < s.drop_last().len() && s.drop_last()[j].0 == n && s.drop_last()[j].1 == sheet_named(s, n)->0;
                assert(s[j] == s.drop_last()[j]);
            }
        } else {
            assert(s[s.len() - 1].0 == n);
        }
    }
}

/// The last sheet named `name`.
fn find_sheet<'a>(sheets: &'a Vec<Sheet>, name: &Vec<char>) -> (res: Option<&'a Sheet>)
    ensures
        match res {
            Some(s) => sheet_named(sheets_view(sheets@), name@) == Some(sheet_view(*s)) && exists|i: int|
                0 <= i < sheets@.len() && sheets@[i] == *s,
            None => sheet_named(sheets_view(sheets@), name@) is None,
        },
{
    let ghost sv = sheets_view(sheets@);
    let mut i = sheets.len();
    assert(sv.take(i as int) =~= sv);
    while i > 0
        invariant
            i <= sheets@.len(),
            sv == sheets_view(sheets@),
            sheet_named(sv, name@) == sheet_named(sv.take(i as int), name@),
        decreases i,
    {
        i = i - 1;
        let cs = chars_of(sheets[i].name.as_str());
        proof {
            let t = sv.take(i + 1);
            assert(t.drop_last() =~= sv.take(i as int));
            assert(t.last() == sv[i as int]);
        }
        match crate::paths::compare_text(&cs, name) {
            crate::paths::PathOrder::Equal => {
                return Some(&sheets[i]);
            },
            _ => {},
        }
    }
    None
}

/// Running counts of a workbook comparison.
struct SheetCounts {
    different: usize,
    left_only: usize,
    right_only: usize,
    identical: usize,
    diffs: Vec<SheetDiff>,
}

spec fn sheet_counts_view(c: SheetCounts) -> SheetTally {
    (c.different as int, c.left_only as int, c.right_only as int, c.identical as int, sheet_diffs_view(c.diffs@))
}

fn record_sheet_exec(v: &mut Vec<SheetDiff>, max: usize, d: SheetDiff)
    ensures
        sheet_diffs_view(final(v)@) == record_sheet(sheet_diffs_view(old(v)@), max as int, sheet_diff_view(d)),
{
    if v.len() < max {
        let ghost before = v@;
        v.push(d);
        assert(sheet_diffs_view(v@) =~= sheet_diffs_view(before).push(sheet_diff_view(d)));
    }
}

/// A copy of a list of names.
fn copy_names(v: &Vec<String>) -> (res: Vec<String>)
    ensures
        names_view(res@) == names_view(v@),
{
    let mut out: Vec<String> = Vec::new();
    let n = v.len();
    for i in 0..n
        invariant
            n == v@.len(),
            names_view(out@) == names_view(v@).take(i as int),
    {
        let s = v[i].as_str().to_owned();
        let ghost before = out@;
        out.push(s);
        assert(names_view(out@) =~= names_view(before).push(s@));
        assert(names_view(out@) =~= names_view(v@).take(i + 1));
    }
    assert(names_view(v@).take(n as int) =~= names_view(v@));
    out
}

/// Whether two lists of names are equal.
fn names_equal(a: &Vec<String>, b: &Vec<String>) -> (res: bool)
    ensures
        res == (names_view(a@) == names_view(b@)),
{
    if a.len() != b.len() {
        assert(names_view(a@).len() != names_view(b@).len());
        return false;
    }
    let n = a.len();
    for i in 0..n
        invariant
            n == a@.len(),
            n == b@.len(),
            forall|k: int| 0 <= k < i ==> a@[k]@ == b@[k]@,
    {
        if !same_text(a[i].as_str(), b[i].as_str()) {
            assert(names_view(a@)[i as int] != names_view(b@)[i as int]);
            return false;
        }
    }
    assert(names_view(a@) =~= names_view(b@));
    true
}

/// Adds the names of `sheets` to sorted `keys`.
fn add_sheet_names(keys: &mut Vec<Vec<char>>, sheets: &Vec<Sheet>)
    requires
        strictly_sorted(keys_view(old(keys)@)),
    ensures
        strictly_sorted(keys_view(final(keys)@)),
        forall|x: Seq<char>|
            keys_view(final(keys)@).contains(x) <==> (keys_view(old(keys)@).contains(x) || exists|j: int|
                0 <= j < sheets@.len() && sheets@[j].name@ == x),
{
    let ghost start = keys_view(keys@);
    let n = sheets.len();
    for i in 0..n
        invariant
            n == sheets@.len(),
            start == keys_view(old(keys)@),
            strictly_sorted(keys_view(keys@)),
            forall|x: Seq<char>|
                #[trigger] keys_view(keys@).contains(x) <==> (start.contains(x) || exists|j: int|
                    0 <= j < i && sheets@[j].name@ == x),
    {
        let cs = chars_of(sheets[i].name.as_str());
        let ghost before = keys_view(keys@);
        let ghost keys_before = *keys;
        let ghost nm = cs@;
        assert(nm == sheets@[i as int].name@);
        insert_sorted(keys, cs);
        assert forall|x: Seq<char>|
            keys_view(keys@).contains(x) <==> (start.contains(x) || exists|j: int|
                0 <= j < i + 1 && sheets@[j].name@ == x) by {
            assert(keys_view(keys@).contains(x) <==> (before.contains(x) || x == nm));
            assert(before.contains(x) <==> (start.contains(x) || exists|j: int| 0 <= j < i && sheets@[j].name@ == x)) by {
                assert(before == keys_view(keys_before@));
            }
            if x == nm {
                assert(0 <= i < i + 1 && sheets@[i as int].name@ == x);
            }
            if exists|j: int| 0 <= j < i + 1 && sheets@[j].name@ == x {
                let j = choose|j: int| 0 <= j < i + 1 && sheets@[j].name@ == x;
                if j < i {
                    assert(0 <= j < i && sheets@[j].name@ == x);
                } else {
                    assert(x == nm);
                }
            }
            if exists|j: int| 0 <= j < i && sheets@[j].name@ == x {
                let j = choose|j: int| 0 <= j < i && sheets@[j].name@ == x;
                assert(0 <= j < i + 1 && sheets@[j].name@ == x);
            }
        }
    }
}

impl ExcelDiffEngine {
    /// Compares two workbooks: the sheets read on either side, by name in
    /// increasing order.
    pub fn compare_workbooks(&self, left: &Workbook, right: &Workbook) -> (res: ExcelDiffResult)
        requires
            workbook_wf(*left),
            workbook_wf(*right),
            sizes_fit(*left, *right),
        ensures
            exists|names: Seq<Seq<char>>| workbooks_ok(*self, *left, *right, names, res),
    {
        let ghost ls = sheets_view(left.sheets@);
        let ghost rs = sheets_view(right.sheets@);
        let ghost ms = self.max_sheet_diffs as int;
        let ghost mc = self.max_cell_diffs_per_sheet as int;
        let mut keys: Vec<Vec<char>> = Vec::new();
        assert(keys_view(keys@) =~= Seq::<Seq<char>>::empty());
        add_sheet_names(&mut keys, &left.sheets);
        add_sheet_names(&mut keys, &right.sheets);
        let ghost ks = keys_view(keys@);
        proof {
            assert forall|x: Seq<char>| ks.contains(x) <==> (sheet_named(ls, x) is Some || sheet_named(rs, x) is Some) by {
                lemma_sheet_named_some(ls, x);
                lemma_sheet_named_some(rs, x);
                if exists|j: int| 0 <= j < left.sheets@.len() && left.sheets@[j].name@ == x {
                    let j = choose|j: int| 0 <= j < left.sheets@.len() && left.sheets@[j].name@ == x;
                    assert(ls[j].0 == x);
                }
                if exists|j: int| 0 <= j < ls.len() && ls[j].0 == x {
                    let j = choose|j: int| 0 <= j < ls.len() && ls[j].0 == x;
                    assert(left.sheets@[j].name@ == x);
                }
                if exists|j: int| 0 <= j < right.sheets@.len() && right.sheets@[j].name@ == x {
                    let j = choose|j: int| 0 <= j < right.sheets@.len() && right.sheets@[j].name@ == x;
                    assert(rs[j].0 == x);
                }
                if exists|j: int| 0 <= j < rs.len() && rs[j].0 == x {
                    let j = choose|j: int| 0 <= j < rs.len() && rs[j].0 == x;
                    assert(right.sheets@[j].name@ == x);
                }
            }
        }
        let mut c = SheetCounts { different: 0, left_only: 0, right_only: 0, identical: 0, diffs: Vec::new() };
        assert(sheet_counts_view(c) =~= sheets_fold(ms, mc, ls, rs, ks.take(0)));
        let nk = keys.len();
        for t in 0..nk
            invariant
                nk == keys@.len(),
                ks == keys_view(keys@),
                ls == sheets_view(left.sheets@),
                rs == sheets_view(right.sheets@),
                ms == self.max_sheet_diffs as int,
                mc == self.max_cell_diffs_per_sheet as int,
                workbook_wf(*left),
                workbook_wf(*right),
                sizes_fit(*left, *right),
                sheet_counts_view(c) == sheets_fold(ms, mc, ls, rs, ks.take(t as int)),
                c.different + c.left_only + c.right_only + c.identical <= t,
        {
            let l = find_sheet(&left.sheets, &keys[t]);
            let r = find_sheet(&right.sheets, &keys[t]);
            let ghost name = ks[t as int];
            assert(ks.take(t + 1).drop_last() =~= ks.take(t as int));
            assert(ks.take(t + 1).last() == name);
            let name_text = crate::text::string_from_chars(keys[t].as_slice());
            match (l, r) {
                (Some(a), Some(b)) => {
                    let ghost ia = choose|i: int| 0 <= i < left.sheets@.len() && left.sheets@[i] == *a;
                    let ghost ib = choose|i: int| 0 <= i < right.sheets@.len() && right.sheets@[i] == *b;
                    assert(sheet_wf(sheet_view(left.sheets@[ia])));
                    assert(sheet_wf(sheet_view(right.sheets@[ib])));
                    assert(larger(left.sheets@[ia].height as int, right.sheets@[ib].height as int) * larger(
                        left.sheets@[ia].width as int,
                        right.sheets@[ib].width as int,
                    ) <= usize::MAX);
                    if ranges_equal(a, b) {
                        c.identical = c.identical + 1;
                    } else {
                        c.different = c.different + 1;
                        let d = self.compare_ranges(name_text.as_str(), a, b);
                        record_sheet_exec(&mut c.diffs, self.max_sheet_diffs, d);
                    }
                },
                (Some(_), None) => {
                    c.left_only = c.left_only + 1;
                    let d = SheetDiff {
                        sheet_name: name_text,
                        diff_type: SheetDiffType::LeftOnly,
                        total_rows: 0,
                        total_cols: 0,
                        different_cells: 0,
                        cell_diffs: Vec::new(),
                    };
                    assert(sheet_diff_view(d).5 =~= Seq::<CellDiffModel>::empty());
                    record_sheet_exec(&mut c.diffs, self.max_sheet_diffs, d);
                },
                (None, Some(_)) => {
                    c.right_only = c.right_only + 1;
                    let d = SheetDiff {
                        sheet_name: name_text,
                        diff_type: SheetDiffType::RightOnly,
                        total_rows: 0,
                        total_cols: 0,
                        different_cells: 0,
                        cell_diffs: Vec::new(),
                    };
                    assert(sheet_diff_view(d).5 =~= Seq::<CellDiffModel>::empty());
                    record_sheet_exec(&mut c.diffs, self.max_sheet_diffs, d);
                },
                (None, None) => {},
            }
        }
        assert(ks.take(nk as int) =~= ks);
        let res = ExcelDiffResult {
            total_sheets: nk,
            different_sheets: c.different,
            left_only_sheets: c.left_only,
            right_only_sheets: c.right_only,
            identical_sheets: c.identical,
            sheet_names_match: names_equal(&left.sheet_names, &right.sheet_names),
            left_sheet_names: copy_names(&left.sheet_names),
            right_sheet_names: copy_names(&right.sheet_names),
            sheet_diffs: c.diffs,
        };
        assert(workbooks_ok(*self, *left, *right, ks, res));
        res
    }
}

impl Default for ExcelDiffEngine {
    fn default() -> (res: Self)
        ensures
            res.max_sheet_diffs == 10,
            res.max_cell_diffs_per_sheet == 20,
    {
        Self::new()
    }
}

/// Extensions of spreadsheet files.
pub const EXCEL_EXTENSIONS: [&'static str; 4] = ["xlsx", "xls", "xlsm", "xlsb"];

/// Whether a file is a spreadsheet, by its extension.
pub fn is_excel_file(path: &str) -> (res: bool)
    ensures
        res == extension_in(path@, EXCEL_EXTENSIONS@),
{
    has_extension_in(path, &EXCEL_EXTENSIONS)
}

/// A sheet holds no NaN float cell.
pub open spec fn sheet_without_nan(m: SheetModel) -> bool {
    forall|k: int| 0 <= k < m.4.len() ==> !((#[trigger] m.4[k]).0.0 == CellKind::Float && is_nan_bits(m.4[k].0.1))
}

/// No sheet of a workbook holds a NaN float cell.
pub open spec fn workbook_without_nan(w: Workbook) -> bool {
    forall|i: int| 0 <= i < w.sheets@.len() ==> sheet_without_nan(#[trigger] sheet_view(w.sheets@[i]))
}

proof fn lemma_sheet_named_in(s: Seq<(Seq<char>, SheetModel)>, n: Seq<char>)
    requires
        sheet_named(s, n) is Some,
    ensures
        exists|i: int| 0 <= i < s.len() && #[trigger] s[i].1 == sheet_named(s, n)->Some_0,
    decreases s.len(),
{
    if s.last().0 != n {
        lemma_sheet_named_in(s.drop_last(), n);
        let i = choose|i: int| 0 <= i < s.drop_last().len() && #[trigger] s.drop_last()[i].1 == sheet_named(s.drop_last(), n)->Some_0;
        assert(s[i].1 == sheet_named(s, n)->Some_0);
    } else {
        assert(s[s.len() - 1].1 == sheet_named(s, n)->Some_0);
    }
}

/// A sheet without NaN cells equals itself.
proof fn lemma_sheet_equals_itself(m: SheetModel)
    requires
        sheet_wf(m),
        sheet_without_nan(m),
    ensures
        sheets_equal(m, m),
{
    assert forall|row: int, col: int| 0 <= row < m.2 && 0 <= col < m.3 implies same_value(
        value_of(value_at(m, row, col)),
        value_of(value_at(m, row, col)),
    ) by {
        let r = row - m.0;
        let c = col - m.1;
        if 0 <= r < m.2 && 0 <= c < m.3 {
            lemma_index_in_bounds(r, c, m.2, m.3);
            let k = r * m.3 + c;
            assert(!(m.4[k].0.0 == CellKind::Float && is_nan_bits(m.4[k].0.1)));
        }
    }
}

proof fn lemma_sheets_fold_self(ms: int, mc: int, s: Seq<(Seq<char>, SheetModel)>, names: Seq<Seq<char>>, n: int)
    requires
        0 <= n <= names.len(),
        forall|i: int| 0 <= i < names.len() ==> sheet_named(s, #[trigger] names[i]) is Some,
        forall|i: int| 0 <= i < s.len() ==> sheet_wf(#[trigger] s[i].1) && sheet_without_nan(s[i].1),
    ensures
        sheets_fold(ms, mc, s, s, names.take(n)) == (0int, 0int, 0int, n, Seq::<SheetDiffModel>::empty()),
    decreases n,
{
    if n > 0 {
        lemma_sheets_fold_self(ms, mc, s, names, n - 1);
        assert(names.take(n).drop_last() =~= names.take(n - 1));
        assert(names.take(n).last() == names[n - 1]);
        assert(sheet_named(s, names[n - 1]) is Some);
        lemma_sheet_named_in(s, names[n - 1]);
        let i = choose|i: int| 0 <= i < s.len() && #[trigger] s[i].1 == sheet_named(s, names[n - 1])->Some_0;
        lemma_sheet_equals_itself(s[i].1);
    }
}

/// Comparing a workbook without NaN cells with itself finds every sheet
/// identical and records no difference. (A NaN cell equals nothing, not
/// even itself.)
pub proof fn lemma_workbook_self(e: ExcelDiffEngine, w: Workbook, names: Seq<Seq<char>>, res: ExcelDiffResult)
    requires
        workbook_wf(w),
        workbook_without_nan(w),
        workbooks_ok(e, w, w, names, res),
    ensures
        res.identical_sheets == res.total_sheets,
        res.different_sheets == 0,
        res.left_only_sheets == 0,
        res.right_only_sheets == 0,
        res.sheet_diffs@.len() == 0,
        res.sheet_names_match,
{
    let s = sheets_view(w.sheets@);
    assert forall|i: int| 0 <= i < names.len() implies sheet_named(s, #[trigger] names[i]) is Some by {
        assert(names.contains(names[i]));
    }
    assert forall|i: int| 0 <= i < s.len() implies sheet_wf(#[trigger] s[i].1) && sheet_without_nan(s[i].1) by {
        assert(s[i].1 == sheet_view(w.sheets@[i]));
    }
    lemma_sheets_fold_self(e.max_sheet_diffs as int, e.max_cell_diffs_per_sheet as int, s, names, names.len() as int);
    assert(names.take(names.len() as int) =~= names);
    assert(sheet_diffs_view(res.sheet_diffs@).len() == res.sheet_diffs@.len());
}

} // verus!
