//! Choosing how a single file is compared, the byte-level comparison of
//! two files, and trimming a line diff to the context around its changes.

use crate::csv_diff::{is_csv_file, CSV_EXTENSIONS};
use crate::excel_diff::{is_excel_file, EXCEL_EXTENSIONS};
use crate::file_kinds::{extension_in, is_parquet_file, is_text_file, PARQUET_EXTENSIONS, TEXT_EXTENSIONS};
use crate::image_diff::{is_image_file, IMAGE_EXTENSIONS};
use crate::json_diff::{is_json_file, is_yaml_file, JSON_EXTENSIONS, YAML_EXTENSIONS};
use crate::paths::{is_safe_relative_path, safe_relative};
use crate::text::{chars_of, concat_str, lowercase_of, same_text, string_from_chars, to_lowercase, trim, trim_chars};
use crate::text_diff::{line_view, lines_view, DiffChangeType, DiffLine, DiffLineModel, HighlightSegment};
use vstd::prelude::*;

verus! {

pub const MODE_AUTO: &'static str = "auto";
pub const MODE_TEXT: &'static str = "text";
pub const MODE_BINARY: &'static str = "binary";
pub const MODE_IMAGE: &'static str = "image";
pub const MODE_CSV: &'static str = "csv";
pub const MODE_EXCEL: &'static str = "excel";
pub const MODE_JSON: &'static str = "json";
pub const MODE_YAML: &'static str = "yaml";
pub const MODE_PARQUET: &'static str = "parquet";

/// The concrete modes, in the order a requested mode is matched.
pub const CONCRETE_MODES: [&'static str; 8] = [
    "text", "binary", "image", "csv", "excel", "json", "yaml", "parquet",
];

pub const UNKNOWN_MODE: &'static str = "unknown diff mode: ";

/// The mode a file's extension selects: the first of image, CSV,
/// spreadsheet, JSON, YAML, Parquet and text whose extensions hold it;
/// binary otherwise.
pub open spec fn auto_mode(path: Seq<char>) -> Seq<char> {
    if extension_in(path, IMAGE_EXTENSIONS@) {
        MODE_IMAGE@
    } else if extension_in(path, CSV_EXTENSIONS@) {
        MODE_CSV@
    } else if extension_in(path, EXCEL_EXTENSIONS@) {
        MODE_EXCEL@
    } else if extension_in(path, JSON_EXTENSIONS@) {
        MODE_JSON@
    } else if extension_in(path, YAML_EXTENSIONS@) {
        MODE_YAML@
    } else if extension_in(path, PARQUET_EXTENSIONS@) {
        MODE_PARQUET@
    } else if extension_in(path, TEXT_EXTENSIONS@) {
        MODE_TEXT@
    } else {
        MODE_BINARY@
    }
}

/// Whether `m` names a concrete mode.
pub open spec fn is_concrete_mode(m: Seq<char>) -> bool {
    exists|i: int| 0 <= i < CONCRETE_MODES@.len() && (#[trigger] CONCRETE_MODES@[i])@ == m
}

/// The mode in which a file is compared: `auto` picks one by the file's
/// extension; a concrete mode is taken as it is; anything else is refused.
pub fn resolve_diff_mode(path: &str, requested: &str) -> (res: Result<&'static str, String>)
    ensures
        requested@ == MODE_AUTO@ ==> (res matches Ok(m) && m@ == auto_mode(path@)),
        requested@ != MODE_AUTO@ && is_concrete_mode(requested@) ==> (res matches Ok(m) && m@ == requested@),
        requested@ != MODE_AUTO@ && !is_concrete_mode(requested@) ==> (res matches Err(e) && e@ == UNKNOWN_MODE@ + requested@),
{
    if same_text(requested, MODE_AUTO) {
        let m = if is_image_file(path) {
            MODE_IMAGE
        } else if is_csv_file(path) {
            MODE_CSV
        } else if is_excel_file(path) {
            MODE_EXCEL
        } else if is_json_file(path) {
            MODE_JSON
        } else if is_yaml_file(path) {
            MODE_YAML
        } else if is_parquet_file(path) {
            MODE_PARQUET
        } else if is_text_file(path) {
            MODE_TEXT
        } else {
            MODE_BINARY
        };
        return Ok(m);
    }
    let n = CONCRETE_MODES.len();
    for i in 0..n
        invariant
            n == CONCRETE_MODES@.len(),
            requested@ != MODE_AUTO@,
            forall|j: int| 0 <= j < i ==> (#[trigger] CONCRETE_MODES@[j])@ != requested@,
    {
        if same_text(CONCRETE_MODES[i], requested) {
            return Ok(CONCRETE_MODES[i]);
        }
    }
    Err(concat_str(UNKNOWN_MODE, requested))
}

/// A range of differing bytes.
#[derive(Debug, Clone, Copy, PartialEq, Eq, Structural)]
pub struct DiffFileBinaryRange {
    pub start: u64,
    pub end_exclusive: u64,
}

/// The byte-level comparison of two files.
#[derive(Debug, Clone)]
pub struct DiffFileBinaryResult {
    pub left_size: u64,
    pub right_size: u64,
    pub identical: bool,
    pub mismatch_bytes: u64,
    pub mismatch_ranges: Vec<DiffFileBinaryRange>,
    pub truncated_ranges: bool,
}

/// Whether position `i` differs: past the end of one file, or holding
/// different bytes.
pub open spec fn byte_differs(l: Seq<u8>, r: Seq<u8>, i: int) -> bool {
    i >= l.len() || i >= r.len() || l[i] != r[i]
}

/// The scan of the first `n` positions: the closed runs of differing
/// positions, the start of an open run, and the number of differing
/// positions.
pub open spec fn runs(l: Seq<u8>, r: Seq<u8>, n: int) -> (Seq<(int, int)>, Option<int>, int)
    decreases n,
{
    if n <= 0 {
        (Seq::empty(), None, 0)
    } else {
        let prev = runs(l, r, n - 1);
        if byte_differs(l, r, n - 1) {
            (prev.0, if prev.1 is Some { prev.1 } else { Some(n - 1) }, prev.2 + 1)
        } else {
            match prev.1 {
                Some(s) => (prev.0.push((s, n - 1)), None, prev.2),
                None => prev,
            }
        }
    }
}

/// The maximal runs of differing positions below `n`, in order.
pub open spec fn mismatch_runs(l: Seq<u8>, r: Seq<u8>, n: int) -> Seq<(int, int)> {
    let st = runs(l, r, n);
    match st.1 {
        Some(s) => st.0.push((s, n)),
        None => st.0,
    }
}

pub open spec fn ranges_view(v: Seq<DiffFileBinaryRange>) -> Seq<(int, int)> {
    v.map_values(|x: DiffFileBinaryRange| (x.start as int, x.end_exclusive as int))
}

/// Compares two files byte by byte: the number of differing positions
/// (bytes past the end of the shorter file count), and the maximal runs
/// of them, of which at most `max_ranges` are kept; whether runs were left
/// out is reported.
pub fn build_binary_diff_result(left: &[u8], right: &[u8], max_ranges: usize) -> (res: DiffFileBinaryResult)
    ensures
        ({
            let n = if left@.len() >= right@.len() { left@.len() } else { right@.len() };
            let all = mismatch_runs(left@, right@, n as int);
            &&& res.left_size == left@.len()
            &&& res.right_size == right@.len()
            &&& res.mismatch_bytes == runs(left@, right@, n as int).2
            &&& res.identical == (res.mismatch_bytes == 0)
            &&& res.truncated_ranges == if max_ranges == 0 { all.len() > 0 } else { all.len() > max_ranges }
            &&& ranges_view(res.mismatch_ranges@) == if max_ranges == 0 {
                Seq::<(int, int)>::empty()
            } else if all.len() > max_ranges {
                all.take(max_ranges as int)
            } else {
                all
            }
        }),
{
    let n = if left.len() >= right.len() { left.len() } else { right.len() };
    let mut mismatch: u64 = 0;
    let mut ranges: Vec<DiffFileBinaryRange> = Vec::new();
    let mut start: Option<usize> = None;
    for i in 0..n
        invariant
            n == (if left@.len() >= right@.len() { left@.len() } else { right@.len() }),
            ({
                let st = runs(left@, right@, i as int);
                &&& ranges_view(ranges@) == st.0
                &&& mismatch == st.2
                &&& match start {
                    Some(s) => st.1 == Some(s as int),
                    None => st.1 is None,
                }
            }),
            mismatch <= i,
    {
        let differs = if i < left.len() && i < right.len() { left[i] != right[i] } else { true };
        if differs {
            mismatch = mismatch + 1;
            if start.is_none() {
                start = Some(i);
            }
        } else {
            match start {
                Some(s) => {
                    let ghost before = ranges@;
                    ranges.push(DiffFileBinaryRange { start: s as u64, end_exclusive: i as u64 });
                    assert(ranges_view(ranges@) =~= ranges_view(before).push((s as int, i as int)));
                    start = None;
                },
                None => {},
            }
        }
    }
    match start {
        Some(s) => {
            let ghost before = ranges@;
            ranges.push(DiffFileBinaryRange { start: s as u64, end_exclusive: n as u64 });
            assert(ranges_view(ranges@) =~= ranges_view(before).push((s as int, n as int)));
        },
        None => {},
    }
    let ghost all = ranges_view(ranges@);
    let truncated = if max_ranges == 0 { ranges.len() > 0 } else { ranges.len() > max_ranges };
    if max_ranges == 0 {
        ranges.clear();
        assert(ranges_view(ranges@) =~= Seq::<(int, int)>::empty());
    } else if ranges.len() > max_ranges {
        ranges.truncate(max_ranges);
        assert(ranges_view(ranges@) =~= all.take(max_ranges as int));
    }
    DiffFileBinaryResult {
        left_size: left.len() as u64,
        right_size: right.len() as u64,
        identical: mismatch == 0,
        mismatch_bytes: mismatch,
        mismatch_ranges: ranges,
        truncated_ranges: truncated,
    }
}

/// Whether line `i` lies within `ctx` lines of a changed line.
pub open spec fn near_change(lines: Seq<DiffLineModel>, ctx: int, i: int) -> bool {
    exists|j: int| 0 <= j < lines.len() && lines[j].3 != DiffChangeType::Equal && i - ctx <= j <= i + ctx
}

/// The lines among the first `n` that lie near a change, in order.
pub open spec fn lines_near_changes(lines: Seq<DiffLineModel>, ctx: int, n: int) -> Seq<DiffLineModel>
    decreases n,
{
    if n <= 0 {
        Seq::empty()
    } else if near_change(lines, ctx, n - 1) {
        lines_near_changes(lines, ctx, n - 1).push(lines[n - 1])
    } else {
        lines_near_changes(lines, ctx, n - 1)
    }
}

/// Whether line `i` lies within `ctx` lines of a changed line.
fn is_near_change(lines: &Vec<DiffLine>, ctx: usize, i: usize) -> (res: bool)
    requires
        i < lines@.len(),
    ensures
        res == near_change(lines_view(lines@), ctx as int, i as int),
{
    let n = lines.len();
    let lo = if i >= ctx { i - ctx } else { 0 };
    let hi = if ctx <= n - 1 - i { i + ctx + 1 } else { n };
    let ghost lv = lines_view(lines@);
    for j in lo..hi
        invariant
            n == lines@.len(),
            lv == lines_view(lines@),
            lo <= hi <= n,
            lo == (if i >= ctx { i - ctx } else { 0 }),
            hi == (if ctx <= n - 1 - i { i + ctx + 1 } else { n as int }),
            i < n,
            forall|k: int| lo <= k < j ==> lv[k].3 == DiffChangeType::Equal,
    {
        if lines[j].change_type != DiffChangeType::Equal {
            assert(lv[j as int].3 != DiffChangeType::Equal);
            return true;
        }
    }
    assert forall|k: int| 0 <= k < lv.len() && lv[k].3 != DiffChangeType::Equal implies !(i - ctx <= k <= i + ctx) by {
        if i - ctx <= k <= i + ctx {
            assert(lo <= k < hi);
        }
    }
    false
}

/// A placeholder line: no line numbers, empty content, unchanged, no
/// highlighted segment.
fn empty_line() -> (res: DiffLine)
    ensures
        line_view(res) == (None::<usize>, None::<usize>, Seq::<char>::empty(), DiffChangeType::Equal, Seq::<HighlightSegment>::empty()),
{
    DiffLine {
        line_number_left: None,
        line_number_right: None,
        content: String::new(),
        change_type: DiffChangeType::Equal,
        highlighted_segments: Vec::new(),
    }
}

/// Keeps the lines within `context` lines of a change; with no context
/// given, all lines.
pub fn trim_diff_context(lines: Vec<DiffLine>, context: Option<usize>) -> (res: Vec<DiffLine>)
    ensures
        lines_view(res@) == match context {
            Some(c) => lines_near_changes(lines_view(lines@), c as int, lines@.len() as int),
            None => lines_view(lines@),
        },
{
    let ctx = match context {
        Some(c) => c,
        None => {
            return lines;
        },
    };
    let ghost orig = lines_view(lines@);
    let n = lines.len();
    let mut keep: Vec<bool> = Vec::new();
    for i in 0..n
        invariant
            n == lines@.len(),
            orig == lines_view(lines@),
            keep@.len() == i,
            forall|k: int| 0 <= k < i ==> keep@[k] == near_change(orig, ctx as int, k),
    {
        let b = is_near_change(&lines, ctx, i);
        keep.push(b);
    }
    let mut src = lines;
    let mut out: Vec<DiffLine> = Vec::new();
    for i in 0..n
        invariant
            n == src@.len(),
            n == orig.len(),
            keep@.len() == n,
            forall|k: int| 0 <= k < n ==> keep@[k] == near_change(orig, ctx as int, k),
            forall|k: int| i <= k < n ==> line_view(#[trigger] src@[k]) == orig[k],
            lines_view(out@) == lines_near_changes(orig, ctx as int, i as int),
    {
        if keep[i] {
            let mut tmp = empty_line();
            let ghost taken = src@[i as int];
            src.set_and_swap(i, &mut tmp);
            assert(tmp == taken);
            let ghost before = out@;
            out.push(tmp);
            assert(lines_view(out@) =~= lines_view(before).push(line_view(tmp)));
        }
    }
    out
}

/// Total length of a list of ranges.
pub open spec fn total_length(rs: Seq<(int, int)>) -> int
    decreases rs.len(),
{
    if rs.len() == 0 {
        0
    } else {
        total_length(rs.drop_last()) + (rs.last().1 - rs.last().0)
    }
}

/// Ranges in increasing order, each non-empty, with a gap between
/// neighbours, all below `n`, and each made of differing positions.
pub open spec fn runs_shape(l: Seq<u8>, r: Seq<u8>, rs: Seq<(int, int)>, n: int) -> bool {
    &&& forall|i: int| 0 <= i < rs.len() ==> 0 <= (#[trigger] rs[i]).0 < rs[i].1 <= n
    &&& forall|i: int, j: int| 0 <= i < j < rs.len() ==> (#[trigger] rs[i]).1 < (#[trigger] rs[j]).0
    &&& forall|i: int, k: int| 0 <= i < rs.len() && (#[trigger] rs[i]).0 <= k < rs[i].1 ==> #[trigger] byte_differs(l, r, k)
}

proof fn lemma_runs_step(l: Seq<u8>, r: Seq<u8>, n: int)
    requires
        n >= 0,
    ensures
        ({
            let st = runs(l, r, n);
            &&& runs_shape(l, r, st.0, n)
            &&& total_length(st.0) + match st.1 {
                Some(s) => n - s,
                None => 0,
            } == st.2
            &&& match st.1 {
                Some(s) => 0 <= s < n && (forall|k: int| s <= k < n ==> byte_differs(l, r, k)) && (st.0.len() > 0
                    ==> st.0.last().1 < s),
                None => true,
            }
        }),
    decreases n,
{
    if n > 0 {
        lemma_runs_step(l, r, n - 1);
        let prev = runs(l, r, n - 1);
        if !byte_differs(l, r, n - 1) {
            if let Some(s) = prev.1 {
                let rs = prev.0.push((s, n - 1));
                assert(rs.drop_last() =~= prev.0);
                assert forall|i: int, j: int| 0 <= i < j < rs.len() implies (#[trigger] rs[i]).1 < (#[trigger] rs[j]).0 by {
                    if j == rs.len() - 1 && i < prev.0.len() {
                        assert(prev.0[i].1 <= prev.0.last().1);
                    }
                }
            }
        }
    }
}

/// The runs of a byte comparison are increasing, disjoint ranges of
/// differing positions below the longer length, whose lengths add up to the
/// number of differing positions.
pub proof fn lemma_mismatch_runs(l: Seq<u8>, r: Seq<u8>, n: int)
    requires
        n >= 0,
    ensures
        runs_shape(l, r, mismatch_runs(l, r, n), n),
        total_length(mismatch_runs(l, r, n)) == runs(l, r, n).2,
{
    lemma_runs_step(l, r, n);
    let st = runs(l, r, n);
    if let Some(s) = st.1 {
        let rs = st.0.push((s, n));
        assert(rs.drop_last() =~= st.0);
        assert forall|i: int, j: int| 0 <= i < j < rs.len() implies (#[trigger] rs[i]).1 < (#[trigger] rs[j]).0 by {
            if j == rs.len() - 1 && i < st.0.len() {
                assert(st.0[i].1 <= st.0.last().1);
            }
        }
    }
}

/// Comparing a file with itself finds no differing byte and no range.
pub proof fn lemma_binary_self(x: Seq<u8>)
    ensures
        runs(x, x, x.len() as int).2 == 0,
        mismatch_runs(x, x, x.len() as int).len() == 0,
{
    lemma_runs_self(x, x.len() as int);
}

proof fn lemma_runs_self(x: Seq<u8>, n: int)
    requires
        n <= x.len(),
    ensures
        runs(x, x, n) == (Seq::<(int, int)>::empty(), None::<int>, 0int),
    decreases n,
{
    if n > 0 {
        lemma_runs_self(x, n - 1);
    }
}

/// Whether `x` is one of the first `n` lines that lies near a change.
pub open spec fn kept_line(lines: Seq<DiffLineModel>, ctx: int, n: int, x: DiffLineModel) -> bool {
    exists|i: int| 0 <= i < n && near_change(lines, ctx, i) && x == lines[i]
}

/// With a context, every changed line is kept, and a line is kept only
/// near a change; without one, every line is kept.
pub proof fn lemma_trim_keeps_changes(lines: Seq<DiffLineModel>, ctx: int, n: int)
    requires
        0 <= n <= lines.len(),
        ctx >= 0,
    ensures
        forall|k: int|
            0 <= k < lines_near_changes(lines, ctx, n).len() ==> kept_line(lines, ctx, n, #[trigger] lines_near_changes(lines, ctx, n)[k]),
        forall|i: int|
            0 <= i < n && lines[i].3 != DiffChangeType::Equal ==> lines_near_changes(lines, ctx, n).contains(lines[i]),
    decreases n,
{
    if n > 0 {
        lemma_trim_keeps_changes(lines, ctx, n - 1);
        let prev = lines_near_changes(lines, ctx, n - 1);
        let cur = lines_near_changes(lines, ctx, n);
        if lines[n - 1].3 != DiffChangeType::Equal {
            assert(near_change(lines, ctx, n - 1));
            assert(cur[cur.len() - 1] == lines[n - 1]);
        }
        assert forall|i: int| 0 <= i < n && lines[i].3 != DiffChangeType::Equal implies cur.contains(lines[i]) by {
            if i < n - 1 {
                let w = choose|w: int| 0 <= w < prev.len() && prev[w] == lines[i];
                assert(cur[w] == lines[i]);
            } else {
                assert(near_change(lines, ctx, n - 1));
                assert(cur[cur.len() - 1] == lines[i]);
            }
        }
        assert forall|k: int| 0 <= k < cur.len() implies kept_line(lines, ctx, n, #[trigger] cur[k]) by {
            if k < prev.len() {
                assert(cur[k] == prev[k]);
                assert(kept_line(lines, ctx, n - 1, prev[k]));
                let i = choose|i: int| 0 <= i < n - 1 && near_change(lines, ctx, i) && prev[k] == lines[i];
                assert(0 <= i < n && near_change(lines, ctx, i) && cur[k] == lines[i]);
            } else {
                assert(near_change(lines, ctx, n - 1) && cur[k] == lines[n - 1]);
            }
        }
    }
}

/// `auto` always selects one of the concrete modes.
pub proof fn lemma_auto_mode_is_concrete(path: Seq<char>)
    ensures
        is_concrete_mode(auto_mode(path)),
{
    reveal_strlit("text");
    reveal_strlit("binary");
    reveal_strlit("image");
    reveal_strlit("csv");
    reveal_strlit("excel");
    reveal_strlit("json");
    reveal_strlit("yaml");
    reveal_strlit("parquet");
    let m = auto_mode(path);
    if m == MODE_TEXT@ {
        assert(CONCRETE_MODES@[0]@ == m);
    } else if m == MODE_BINARY@ {
        assert(CONCRETE_MODES@[1]@ == m);
    } else if m == MODE_IMAGE@ {
        assert(CONCRETE_MODES@[2]@ == m);
    } else if m == MODE_CSV@ {
        assert(CONCRETE_MODES@[3]@ == m);
    } else if m == MODE_EXCEL@ {
        assert(CONCRETE_MODES@[4]@ == m);
    } else if m == MODE_JSON@ {
        assert(CONCRETE_MODES@[5]@ == m);
    } else if m == MODE_YAML@ {
        assert(CONCRETE_MODES@[6]@ == m);
    } else {
        assert(CONCRETE_MODES@[7]@ == m);
    }
}

/// Message for an empty `--path`.
pub const EMPTY_PATH: &'static str = "--path cannot be empty";

/// Message for a `--path` that is absolute or climbs out of its root.
pub const UNSAFE_PATH: &'static str = "--path must be a safe relative path";

/// Message for an unknown `--side`.
pub const BAD_SIDE: &'static str = "invalid --side. Use: left, right";

pub const SIDE_LEFT: &'static str = "left";
pub const SIDE_RIGHT: &'static str = "right";

/// The relative path a file command works on: the given path trimmed; an
/// error when that is empty or not a safe relative path.
pub fn checked_rel_path(path: &str) -> (res: Result<String, String>)
    ensures
        trim(path@).len() == 0 ==> (res matches Err(m) && m@ == EMPTY_PATH@),
        trim(path@).len() > 0 && !safe_relative(trim(path@)) ==> (res matches Err(m) && m@ == UNSAFE_PATH@),
        trim(path@).len() > 0 && safe_relative(trim(path@)) ==> (res matches Ok(r) && r@ == trim(path@)),
{
    let tc = trim_chars(chars_of(path).as_slice());
    let t = string_from_chars(tc.as_slice());
    if tc.len() == 0 {
        return Err(string_from_chars(chars_of(EMPTY_PATH).as_slice()));
    }
    if !is_safe_relative_path(t.as_str()) {
        return Err(string_from_chars(chars_of(UNSAFE_PATH).as_slice()));
    }
    Ok(t)
}

/// The side a `read` command reads, given in any case: `Ok(true)` for the
/// left, `Ok(false)` for the right; an error for any other name.
pub fn read_side(side: &str) -> (res: Result<bool, String>)
    ensures
        lowercase_of(side@) == SIDE_LEFT@ ==> res == Ok::<bool, String>(true),
        lowercase_of(side@) == SIDE_RIGHT@ ==> res == Ok::<bool, String>(false),
        lowercase_of(side@) != SIDE_LEFT@ && lowercase_of(side@) != SIDE_RIGHT@ ==> (res matches Err(m) && m@
            == BAD_SIDE@),
{
    proof {
        reveal_strlit("left");
        reveal_strlit("right");
        assert(SIDE_LEFT@[0] != SIDE_RIGHT@[0]);
    }
    let s = to_lowercase(side);
    if same_text(s.as_str(), SIDE_LEFT) {
        Ok(true)
    } else if same_text(s.as_str(), SIDE_RIGHT) {
        Ok(false)
    } else {
        Err(string_from_chars(chars_of(BAD_SIDE).as_slice()))
    }
}

} // verus!
