//! Comparison of CSV tables, row by row or by key columns. The `csv` crate
//! parses the bytes; the comparison works on the parsed headers and
//! records.

use crate::error::RCompareError;
use crate::file_kinds::{extension_in, has_extension_in};
use crate::paths::{compare_text, text_less, PathOrder};
use crate::text::{chars_of, concat_str, slice_chars};
use vstd::prelude::*;

verus! {

/// A record (or header row) as its fields.
pub type Rec = Seq<Seq<char>>;

/// A pair of optional records compared as one row.
pub type RowPair = (Option<Rec>, Option<Rec>);

/// Model of a column difference: column name, index, left and right value.
pub type ColModel = (Seq<char>, usize, Seq<char>, Seq<char>);

/// Model of a row difference: row number, kind, column differences.
pub type RowModel = (usize, RowDiffType, Seq<ColModel>);

/// Running counts of a comparison: different, left only, right only,
/// identical rows, and the recorded row differences.
pub type Tally = (int, int, int, int, Seq<RowModel>);

/// How a row differs.
#[derive(Debug, Clone, Copy, PartialEq, Eq, Structural)]
pub enum RowDiffType {
    /// Row exists in both but values differ.
    Modified,
    /// Row only exists in left.
    LeftOnly,
    /// Row only exists in right.
    RightOnly,
}

/// A difference in one column of a row.
#[derive(Debug, Clone)]
pub struct ColumnDiff {
    pub column: String,
    pub index: usize,
    pub left_value: String,
    pub right_value: String,
}

/// A difference in a row (row numbers count from 1, header excluded).
#[derive(Debug, Clone)]
pub struct RowDiff {
    pub row_num: usize,
    pub diff_type: RowDiffType,
    /// Column differences (only for modified rows).
    pub column_diffs: Vec<ColumnDiff>,
}

/// Result of a CSV comparison.
#[derive(Debug, Clone)]
pub struct CsvDiffResult {
    /// Total number of rows (excluding header).
    pub total_rows: usize,
    pub different_rows: usize,
    pub left_only_rows: usize,
    pub right_only_rows: usize,
    pub identical_rows: usize,
    pub headers_match: bool,
    pub left_headers: Vec<String>,
    pub right_headers: Vec<String>,
    /// Detailed row differences, up to the engine's limit.
    pub row_diffs: Vec<RowDiff>,
}

/// How rows are matched.
#[derive(Debug, Clone, Copy, PartialEq, Eq, Structural)]
pub enum CsvCompareMode {
    /// Compare row by row in order.
    RowByRow,
    /// Compare by key column(s); rows can be in different order.
    ByKey,
}

impl Default for CsvCompareMode {
    fn default() -> (res: Self)
        ensures
            res == CsvCompareMode::RowByRow,
    {
        CsvCompareMode::RowByRow
    }
}

/// Settings of a CSV comparison.
pub struct CsvDiffEngine {
    pub mode: CsvCompareMode,
    pub key_columns: Vec<String>,
    pub max_row_diffs: usize,
}

/// The fields of a record.
pub open spec fn rec_view(r: Vec<String>) -> Rec {
    fields_view(r@)
}

/// The texts of a sequence of strings.
pub open spec fn fields_view(v: Seq<String>) -> Rec {
    v.map_values(|s: String| s@)
}

/// The records of a table.
pub open spec fn recs_view(v: Seq<Vec<String>>) -> Seq<Rec> {
    v.map_values(|r: Vec<String>| rec_view(r))
}

pub open spec fn col_view(c: ColumnDiff) -> ColModel {
    (c.column@, c.index, c.left_value@, c.right_value@)
}

pub open spec fn cols_view(v: Seq<ColumnDiff>) -> Seq<ColModel> {
    v.map_values(|c: ColumnDiff| col_view(c))
}

pub open spec fn row_view(r: RowDiff) -> RowModel {
    (r.row_num, r.diff_type, cols_view(r.column_diffs@))
}

pub open spec fn rows_view(v: Seq<RowDiff>) -> Seq<RowModel> {
    v.map_values(|r: RowDiff| row_view(r))
}

/// Field `i` of a record, or the empty text past its end.
pub open spec fn field_or_empty(r: Rec, i: int) -> Seq<char> {
    if 0 <= i < r.len() {
        r[i]
    } else {
        Seq::empty()
    }
}

/// The differing columns among the first `n` headers: each with its
/// header, index and the two values (empty where a record is short).
pub open spec fn column_diffs(headers: Rec, l: Rec, r: Rec, n: int) -> Seq<ColModel>
    decreases n,
{
    if n <= 0 {
        Seq::empty()
    } else if field_or_empty(l, n - 1) != field_or_empty(r, n - 1) {
        column_diffs(headers, l, r, n - 1).push(
            (headers[n - 1], (n - 1) as usize, field_or_empty(l, n - 1), field_or_empty(r, n - 1)),
        )
    } else {
        column_diffs(headers, l, r, n - 1)
    }
}

/// Records a row difference while fewer than `max` are recorded.
pub open spec fn record_row(rows: Seq<RowModel>, max: int, row: RowModel) -> Seq<RowModel> {
    if rows.len() < max {
        rows.push(row)
    } else {
        rows
    }
}

/// One row of the comparison, number `row_num`.
pub open spec fn tally_step(headers: Rec, max: int, t: Tally, row_num: int, p: RowPair) -> Tally {
    match p {
        (Some(a), Some(b)) => if a == b {
            (t.0, t.1, t.2, t.3 + 1, t.4)
        } else {
            (
                t.0 + 1,
                t.1,
                t.2,
                t.3,
                record_row(
                    t.4,
                    max,
                    (row_num as usize, RowDiffType::Modified, column_diffs(headers, a, b, headers.len() as int)),
                ),
            )
        },
        (Some(_), None) => (
            t.0,
            t.1 + 1,
            t.2,
            t.3,
            record_row(t.4, max, (row_num as usize, RowDiffType::LeftOnly, Seq::empty())),
        ),
        (None, Some(_)) => (
            t.0,
            t.1,
            t.2 + 1,
            t.3,
            record_row(t.4, max, (row_num as usize, RowDiffType::RightOnly, Seq::empty())),
        ),
        (None, None) => t,
    }
}

/// The comparison of a sequence of rows, numbered from 1.
pub open spec fn tally(headers: Rec, max: int, pairs: Seq<RowPair>) -> Tally
    decreases pairs.len(),
{
    if pairs.len() == 0 {
        (0, 0, 0, 0, Seq::empty())
    } else {
        tally_step(headers, max, tally(headers, max, pairs.drop_last()), pairs.len() as int, pairs.last())
    }
}

/// Record `i`, if there is one.
pub open spec fn opt_at(rs: Seq<Rec>, i: int) -> Option<Rec> {
    if 0 <= i < rs.len() {
        Some(rs[i])
    } else {
        None
    }
}

pub open spec fn max_len(a: nat, b: nat) -> nat {
    if a >= b {
        a
    } else {
        b
    }
}

/// The rows of a positional comparison: record `i` of each side.
pub open spec fn positional_pairs(l: Seq<Rec>, r: Seq<Rec>) -> Seq<RowPair> {
    Seq::new(max_len(l.len(), r.len()), |i: int| (opt_at(l, i), opt_at(r, i)))
}

/// The first position of `col` in `headers`.
pub open spec fn position_of(headers: Rec, col: Seq<char>) -> Option<int>
    decreases headers.len(),
{
    if headers.len() == 0 {
        None
    } else {
        match position_of(headers.drop_last(), col) {
            Some(p) => Some(p),
            None => if headers.last() == col {
                Some(headers.len() - 1)
            } else {
                None
            },
        }
    }
}

/// The positions of the key columns found in `headers`, in the order of
/// the key columns; those not found are left out.
pub open spec fn key_indices(headers: Rec, cols: Seq<Seq<char>>) -> Seq<int>
    decreases cols.len(),
{
    if cols.len() == 0 {
        Seq::empty()
    } else {
        match position_of(headers, cols.last()) {
            Some(p) => key_indices(headers, cols.drop_last()).push(p),
            None => key_indices(headers, cols.drop_last()),
        }
    }
}

/// The key fields of a record: those at the key indices it has.
pub open spec fn key_parts(r: Rec, idx: Seq<int>) -> Seq<Seq<char>>
    decreases idx.len(),
{
    if idx.len() == 0 {
        Seq::empty()
    } else if 0 <= idx.last() < r.len() {
        key_parts(r, idx.drop_last()).push(r[idx.last()])
    } else {
        key_parts(r, idx.drop_last())
    }
}

/// Texts joined with `|` between them.
pub open spec fn join_bar(parts: Seq<Seq<char>>) -> Seq<char>
    decreases parts.len(),
{
    if parts.len() == 0 {
        Seq::empty()
    } else if parts.len() == 1 {
        parts[0]
    } else {
        join_bar(parts.drop_last()) + seq!['|'] + parts.last()
    }
}

/// The key of a record.
pub open spec fn key_of(r: Rec, idx: Seq<int>) -> Seq<char> {
    join_bar(key_parts(r, idx))
}

/// The records by key; of records with one key, the last one counts.
pub open spec fn keyed(recs: Seq<Rec>, idx: Seq<int>) -> Map<Seq<char>, Rec>
    decreases recs.len(),
{
    if recs.len() == 0 {
        Map::empty()
    } else {
        keyed(recs.drop_last(), idx).insert(key_of(recs.last(), idx), recs.last())
    }
}

pub open spec fn lookup(m: Map<Seq<char>, Rec>, k: Seq<char>) -> Option<Rec> {
    if m.dom().contains(k) {
        Some(m[k])
    } else {
        None
    }
}

/// The rows of a keyed comparison: the record of each key on each side.
pub open spec fn keyed_pairs(l: Map<Seq<char>, Rec>, r: Map<Seq<char>, Rec>, keys: Seq<Seq<char>>) -> Seq<RowPair> {
    keys.map_values(|k: Seq<char>| (lookup(l, k), lookup(r, k)))
}

/// Keys in strictly increasing character order.
pub open spec fn strictly_sorted(keys: Seq<Seq<char>>) -> bool {
    forall|i: int, j: int| 0 <= i < j < keys.len() ==> text_less(#[trigger] keys[i], #[trigger] keys[j])
}

/// `res` holds the totals, counts and row differences of a comparison.
pub open spec fn result_is(
    res: CsvDiffResult,
    total: int,
    t: Tally,
    lh: Rec,
    rh: Rec,
) -> bool {
    &&& res.total_rows == total
    &&& res.different_rows == t.0
    &&& res.left_only_rows == t.1
    &&& res.right_only_rows == t.2
    &&& res.identical_rows == t.3
    &&& rows_view(res.row_diffs@) == t.4
    &&& res.headers_match == (lh == rh)
    &&& rec_view(res.left_headers) == lh
    &&& rec_view(res.right_headers) == rh
}

/// The row-by-row comparison of two tables.
pub open spec fn row_by_row_ok(res: CsvDiffResult, max: int, lh: Rec, rh: Rec, l: Seq<Rec>, r: Seq<Rec>) -> bool {
    result_is(res, max_len(l.len(), r.len()) as int, tally(lh, max, positional_pairs(l, r)), lh, rh)
}

/// The comparison of two tables by the keys at `idx`, whose keys, taken
/// together and in increasing order, are `keys`.
pub open spec fn by_key_ok(
    res: CsvDiffResult,
    max: int,
    lh: Rec,
    rh: Rec,
    l: Seq<Rec>,
    r: Seq<Rec>,
    idx: Seq<int>,
    keys: Seq<Seq<char>>,
) -> bool {
    let lm = keyed(l, idx);
    let rm = keyed(r, idx);
    &&& strictly_sorted(keys)
    &&& forall|k: Seq<char>| keys.contains(k) <==> (lm.dom().contains(k) || rm.dom().contains(k))
    &&& result_is(
        res,
        max_len(lm.dom().len(), rm.dom().len()) as int,
        tally(lh, max, keyed_pairs(lm, rm, keys)),
        lh,
        rh,
    )
}

pub proof fn lemma_text_less_irreflexive(a: Seq<char>)
    ensures
        !text_less(a, a),
    decreases a.len(),
{
    if a.len() > 0 {
        lemma_text_less_irreflexive(a.drop_first());
    }
}

pub proof fn lemma_text_less_transitive(a: Seq<char>, b: Seq<char>, c: Seq<char>)
    requires
        text_less(a, b),
        text_less(b, c),
    ensures
        text_less(a, c),
    decreases a.len(),
{
    if a.len() > 0 && b.len() > 0 && c.len() > 0 && a[0] == b[0] && b[0] == c[0] {
        lemma_text_less_transitive(a.drop_first(), b.drop_first(), c.drop_first());
    }
}

/// Whether two records have the same fields.
fn records_equal(a: &Vec<String>, b: &Vec<String>) -> (res: bool)
    ensures
        res == (rec_view(*a) == rec_view(*b)),
{
    if a.len() != b.len() {
        assert(rec_view(*a).len() != rec_view(*b).len());
        return false;
    }
    let n = a.len();
    for i in 0..n
        invariant
            n == a@.len(),
            n == b@.len(),
            forall|k: int| 0 <= k < i ==> a@[k]@ == b@[k]@,
    {
        if !crate::text::same_text(a[i].as_str(), b[i].as_str()) {
            assert(rec_view(*a)[i as int] != rec_view(*b)[i as int]);
            return false;
        }
    }
    assert(rec_view(*a) =~= rec_view(*b));
    true
}

/// A copy of a record.
fn copy_record(r: &Vec<String>) -> (res: Vec<String>)
    ensures
        rec_view(res) == rec_view(*r),
{
    let mut out: Vec<String> = Vec::new();
    let n = r.len();
    for i in 0..n
        invariant
            n == r@.len(),
            rec_view(out) == rec_view(*r).take(i as int),
    {
        let s = r[i].as_str().to_owned();
        let ghost before = out@;
        out.push(s);
        assert(fields_view(out@) =~= fields_view(before).push(s@));
        assert(rec_view(out) =~= rec_view(*r).take(i + 1));
    }
    assert(rec_view(*r).take(n as int) =~= rec_view(*r));
    out
}

/// Field `i` of a record, or the empty text past its end.
fn field_at(r: &Vec<String>, i: usize) -> (res: &str)
    ensures
        res@ == field_or_empty(rec_view(*r), i as int),
{
    if i < r.len() {
        r[i].as_str()
    } else {
        proof {
            reveal_strlit("");
        }
        ""
    }
}

/// The differing columns of two records, named by `headers`.
fn find_column_diffs(headers: &Vec<String>, l: &Vec<String>, r: &Vec<String>) -> (res: Vec<ColumnDiff>)
    ensures
        cols_view(res@) == column_diffs(rec_view(*headers), rec_view(*l), rec_view(*r), headers@.len() as int),
{
    let mut diffs: Vec<ColumnDiff> = Vec::new();
    let n = headers.len();
    for idx in 0..n
        invariant
            n == headers@.len(),
            cols_view(diffs@) == column_diffs(rec_view(*headers), rec_view(*l), rec_view(*r), idx as int),
    {
        let lv = field_at(l, idx);
        let rv = field_at(r, idx);
        if !crate::text::same_text(lv, rv) {
            let d = ColumnDiff {
                column: headers[idx].as_str().to_owned(),
                index: idx,
                left_value: lv.to_owned(),
                right_value: rv.to_owned(),
            };
            let ghost before = diffs@;
            diffs.push(d);
            assert(cols_view(diffs@) =~= cols_view(before).push(col_view(d)));
        }
    }
    diffs
}

/// Running counts of a comparison.
struct Counts {
    different: usize,
    left_only: usize,
    right_only: usize,
    identical: usize,
    row_diffs: Vec<RowDiff>,
}

spec fn counts_view(c: Counts) -> Tally {
    (c.different as int, c.left_only as int, c.right_only as int, c.identical as int, rows_view(c.row_diffs@))
}

spec fn counts_sum(c: Counts) -> int {
    c.different + c.left_only + c.right_only + c.identical
}

spec fn opt_rec(o: Option<&Vec<String>>) -> Option<Rec> {
    match o {
        Some(v) => Some(rec_view(*v)),
        None => None,
    }
}

/// Records a row difference while fewer than `max` are recorded.
fn record_row_exec(rows: &mut Vec<RowDiff>, max: usize, row: RowDiff)
    ensures
        rows_view(final(rows)@) == record_row(rows_view(old(rows)@), max as int, row_view(row)),
{
    if rows.len() < max {
        let ghost before = rows@;
        rows.push(row);
        assert(rows_view(rows@) =~= rows_view(before).push(row_view(row)));
    }
}

/// Compares one row, number `row_num`.
fn count_row(
    headers: &Vec<String>,
    max: usize,
    c: &mut Counts,
    row_num: usize,
    l: Option<&Vec<String>>,
    r: Option<&Vec<String>>,
)
    requires
        counts_sum(*old(c)) < usize::MAX,
    ensures
        counts_view(*final(c)) == tally_step(
            rec_view(*headers),
            max as int,
            counts_view(*old(c)),
            row_num as int,
            (opt_rec(l), opt_rec(r)),
        ),
{
    match (l, r) {
        (Some(a), Some(b)) => {
            if records_equal(a, b) {
                c.identical = c.identical + 1;
            } else {
                c.different = c.different + 1;
                let cols = find_column_diffs(headers, a, b);
                let row = RowDiff { row_num, diff_type: RowDiffType::Modified, column_diffs: cols };
                record_row_exec(&mut c.row_diffs, max, row);
            }
        },
        (Some(_), None) => {
            c.left_only = c.left_only + 1;
            let row = RowDiff { row_num, diff_type: RowDiffType::LeftOnly, column_diffs: Vec::new() };
            assert(cols_view(row.column_diffs@) =~= Seq::<ColModel>::empty());
            record_row_exec(&mut c.row_diffs, max, row);
        },
        (None, Some(_)) => {
            c.right_only = c.right_only + 1;
            let row = RowDiff { row_num, diff_type: RowDiffType::RightOnly, column_diffs: Vec::new() };
            assert(cols_view(row.column_diffs@) =~= Seq::<ColModel>::empty());
            record_row_exec(&mut c.row_diffs, max, row);
        },
        (None, None) => {},
    }
}

/// The key-column positions as integers.
pub open spec fn idx_view(v: Seq<usize>) -> Seq<int> {
    v.map_values(|x: usize| x as int)
}

/// The first position of `col` in `headers` at or after `i`.
pub open spec fn position_from(headers: Rec, col: Seq<char>, i: int) -> Option<int>
    decreases headers.len() - i,
{
    if i < 0 || i >= headers.len() {
        None
    } else if headers[i] == col {
        Some(i)
    } else {
        position_from(headers, col, i + 1)
    }
}

proof fn lemma_position_prefix(headers: Rec, col: Seq<char>, n: int)
    requires
        0 <= n <= headers.len(),
    ensures
        position_of(headers.take(n), col) == (match position_from(headers, col, 0) {
            Some(p) => if p < n { Some(p) } else { None::<int> },
            None => None::<int>,
        }),
    decreases n,
{
    lemma_position_from_found(headers, col, 0);
    if n > 0 {
        lemma_position_prefix(headers, col, n - 1);
        let t = headers.take(n);
        assert(t.drop_last() =~= headers.take(n - 1));
        assert(t.last() == headers[n - 1]);
        assert(t.len() == n);
        if headers[n - 1] == col {
            lemma_position_from_bounded(headers, col, 0, n - 1);
        }
        assert(position_of(t, col) == match position_of(t.drop_last(), col) {
            Some(p) => Some(p),
            None => if t.last() == col {
                Some(t.len() - 1)
            } else {
                None
            },
        });
    }
}

proof fn lemma_position_from_bounded(headers: Rec, col: Seq<char>, i: int, k: int)
    requires
        0 <= i <= k < headers.len(),
        headers[k] == col,
    ensures
        position_from(headers, col, i) matches Some(p) && p <= k,
    decreases k - i,
{
    if i < k && headers[i] != col {
        lemma_position_from_bounded(headers, col, i + 1, k);
    }
}

proof fn lemma_position_from_shape(headers: Rec, col: Seq<char>, i: int, k: int)
    requires
        0 <= i <= k < headers.len(),
    ensures
        (forall|j: int| i <= j < k ==> headers[j] != col) ==> (position_from(headers, col, i) == if headers[k] == col {
            Some(k)
        } else {
            position_from(headers, col, k + 1)
        }),
        position_from(headers, col, i) matches Some(p) ==> i <= p < headers.len() && headers[p] == col
            && forall|j: int| i <= j < p ==> headers[j] != col,
    decreases k - i,
{
    if i < k {
        lemma_position_from_shape(headers, col, i + 1, k);
    } else {
        lemma_position_from_found(headers, col, i);
    }
}

proof fn lemma_position_from_found(headers: Rec, col: Seq<char>, i: int)
    requires
        0 <= i,
    ensures
        position_from(headers, col, i) matches Some(p) ==> i <= p < headers.len() && headers[p] == col
            && forall|j: int| i <= j < p ==> headers[j] != col,
    decreases headers.len() - i,
{
    if i < headers.len() && headers[i] != col {
        lemma_position_from_found(headers, col, i + 1);
    }
}

/// The first position of `col` in `headers`.
fn position_in(headers: &Vec<String>, col: &String) -> (res: Option<usize>)
    ensures
        match res {
            Some(p) => position_of(rec_view(*headers), col@) == Some(p as int),
            None => position_of(rec_view(*headers), col@) is None,
        },
{
    let ghost h = rec_view(*headers);
    let n = headers.len();
    for i in 0..n
        invariant
            n == headers@.len(),
            h == rec_view(*headers),
            forall|j: int| 0 <= j < i ==> h[j] != col@,
    {
        if crate::text::same_text(headers[i].as_str(), col.as_str()) {
            proof {
                lemma_position_from_shape(h, col@, 0, i as int);
                lemma_position_prefix(h, col@, n as int);
                assert(h.take(n as int) =~= h);
            }
            return Some(i);
        }
    }
    proof {
        lemma_position_prefix(h, col@, n as int);
        assert(h.take(n as int) =~= h);
        lemma_position_from_found(h, col@, 0);
    }
    None
}

/// The positions of the key columns found in `headers`.
fn find_key_indices(headers: &Vec<String>, cols: &Vec<String>) -> (res: Vec<usize>)
    ensures
        idx_view(res@) == key_indices(rec_view(*headers), rec_view(*cols)),
{
    let mut out: Vec<usize> = Vec::new();
    let n = cols.len();
    for i in 0..n
        invariant
            n == cols@.len(),
            idx_view(out@) == key_indices(rec_view(*headers), rec_view(*cols).take(i as int)),
    {
        let ghost before = out@;
        assert(rec_view(*cols).take(i + 1).drop_last() =~= rec_view(*cols).take(i as int));
        match position_in(headers, &cols[i]) {
            Some(p) => {
                out.push(p);
                assert(idx_view(out@) =~= idx_view(before).push(p as int));
            },
            None => {},
        }
    }
    assert(rec_view(*cols).take(n as int) =~= rec_view(*cols));
    out
}

/// The key of a record: its fields at the key positions, joined by `|`.
fn build_key(r: &Vec<String>, idx: &Vec<usize>) -> (res: Vec<char>)
    ensures
        res@ == key_of(rec_view(*r), idx_view(idx@)),
{
    let mut key: Vec<char> = Vec::new();
    let mut count: usize = 0;
    let ghost rv = rec_view(*r);
    let ghost iv = idx_view(idx@);
    let n = idx.len();
    for k in 0..n
        invariant
            n == idx@.len(),
            rv == rec_view(*r),
            iv == idx_view(idx@),
            count == key_parts(rv, iv.take(k as int)).len(),
            count <= k,
            key@ == join_bar(key_parts(rv, iv.take(k as int))),
    {
        let ghost parts = key_parts(rv, iv.take(k as int));
        assert(iv.take(k + 1).drop_last() =~= iv.take(k as int));
        let j = idx[k];
        if j < r.len() {
            let field = chars_of(r[j].as_str());
            let ghost np = parts.push(rv[j as int]);
            if count > 0 {
                key.push('|');
            }
            let mut f = field;
            key.append(&mut f);
            assert(np.drop_last() =~= parts);
            if count == 0 {
                assert(key@ =~= join_bar(np));
            } else {
                assert(key@ =~= join_bar(np));
            }
            count = count + 1;
        }
    }
    assert(iv.take(n as int) =~= iv);
    key
}

/// Keys of key-indexed entries.
spec fn entry_keys(e: Seq<(Vec<char>, usize)>) -> Seq<Seq<char>> {
    e.map_values(|x: (Vec<char>, usize)| x.0@)
}

/// The entry with key `k`, if any.
fn find_key(entries: &Vec<(Vec<char>, usize)>, k: &Vec<char>) -> (res: Option<usize>)
    ensures
        match res {
            Some(j) => j < entries@.len() && entries@[j as int].0@ == k@,
            None => forall|j: int| 0 <= j < entries@.len() ==> entries@[j].0@ != k@,
        },
{
    let n = entries.len();
    for j in 0..n
        invariant
            n == entries@.len(),
            forall|i: int| 0 <= i < j ==> entries@[i].0@ != k@,
    {
        match compare_text(&entries[j].0, k) {
            PathOrder::Equal => {
                return Some(j);
            },
            _ => {},
        }
    }
    None
}

/// Whether `entries` index `recs` by key: one entry per key, each naming
/// the last record with that key.
spec fn indexes(entries: Seq<(Vec<char>, usize)>, recs: Seq<Rec>, m: Map<Seq<char>, Rec>) -> bool {
    &&& entry_keys(entries).no_duplicates()
    &&& forall|k: Seq<char>| m.dom().contains(k) <==> entry_keys(entries).contains(k)
    &&& forall|j: int|
        0 <= j < entries.len() ==> (#[trigger] entries[j]).1 < recs.len() && m[entries[j].0@] == recs[entries[j].1 as int]
}

/// Indexes the records by key.
fn index_by_key(recs: &Vec<Vec<String>>, idx: &Vec<usize>) -> (res: Vec<(Vec<char>, usize)>)
    ensures
        indexes(res@, recs_view(recs@), keyed(recs_view(recs@), idx_view(idx@))),
{
    let ghost rv = recs_view(recs@);
    let ghost iv = idx_view(idx@);
    let mut entries: Vec<(Vec<char>, usize)> = Vec::new();
    let n = recs.len();
    assert(rv.take(0) =~= Seq::<Rec>::empty());
    for i in 0..n
        invariant
            n == recs@.len(),
            rv == recs_view(recs@),
            iv == idx_view(idx@),
            indexes(entries@, rv, keyed(rv.take(i as int), iv)),
    {
        let k = build_key(&recs[i], idx);
        let ghost m0 = keyed(rv.take(i as int), iv);
        assert(rv.take(i + 1).drop_last() =~= rv.take(i as int));
        assert(rv.take(i + 1).last() == rv[i as int]);
        let ghost m1 = m0.insert(k@, rv[i as int]);
        assert(keyed(rv.take(i + 1), iv) == m1);
        let ghost old_entries = entries@;
        match find_key(&entries, &k) {
            Some(j) => {
                entries.set(j, (k, i));
                assert(entry_keys(entries@) =~= entry_keys(old_entries));
                assert forall|jj: int| 0 <= jj < entries@.len() implies (#[trigger] entries@[jj]).1 < rv.len()
                    && m1[entries@[jj].0@] == rv[entries@[jj].1 as int] by {
                    if jj != j {
                        assert(entry_keys(old_entries)[jj] != entry_keys(old_entries)[j as int]);
                    }
                }
                assert forall|kk: Seq<char>| m1.dom().contains(kk) <==> entry_keys(entries@).contains(kk) by {
                    if kk == k@ {
                        assert(entry_keys(entries@)[j as int] == kk);
                    }
                }
            },
            None => {
                let ghost kv = k@;
                entries.push((k, i));
                assert(entry_keys(entries@) =~= entry_keys(old_entries).push(kv));
                assert(!entry_keys(old_entries).contains(kv));
                assert forall|kk: Seq<char>| m1.dom().contains(kk) <==> entry_keys(entries@).contains(kk) by {
                    if kk == kv {
                        assert(entry_keys(entries@)[old_entries.len() as int] == kk);
                    } else if entry_keys(entries@).contains(kk) {
                        let w = choose|w: int| 0 <= w < entry_keys(entries@).len() && entry_keys(entries@)[w] == kk;
                        assert(entry_keys(old_entries)[w] == kk);
                    } else if entry_keys(old_entries).contains(kk) {
                        let w = choose|w: int| 0 <= w < entry_keys(old_entries).len() && entry_keys(old_entries)[w] == kk;
                        assert(entry_keys(entries@)[w] == kk);
                    }
                }
                assert forall|jj: int| 0 <= jj < entries@.len() implies (#[trigger] entries@[jj]).1 < rv.len()
                    && m1[entries@[jj].0@] == rv[entries@[jj].1 as int] by {
                    if jj < old_entries.len() {
                        assert(entry_keys(old_entries)[jj] != kv);
                    }
                }
            },
        }
    }
    assert(rv.take(n as int) =~= rv);
    entries
}

/// The texts of a list of keys.
pub(crate) open spec fn keys_view(v: Seq<Vec<char>>) -> Seq<Seq<char>> {
    v.map_values(|x: Vec<char>| x@)
}

/// Inserts `k` into strictly sorted keys, unless it is there already.
pub(crate) fn insert_sorted(keys: &mut Vec<Vec<char>>, k: Vec<char>)
    requires
        strictly_sorted(keys_view(old(keys)@)),
    ensures
        strictly_sorted(keys_view(final(keys)@)),
        forall|x: Seq<char>|
            keys_view(final(keys)@).contains(x) <==> (keys_view(old(keys)@).contains(x) || x == k@),
{
    let ghost s = keys_view(keys@);
    let mut p: usize = 0;
    loop
        invariant_except_break
            keys_view(keys@) == s,
            p <= keys@.len(),
            forall|i: int| 0 <= i < p ==> text_less(s[i], k@),
        invariant
            strictly_sorted(s),
        ensures
            keys_view(keys@) == s,
            p <= keys@.len(),
            forall|i: int| 0 <= i < p ==> text_less(s[i], k@),
            p < keys@.len() ==> text_less(k@, s[p as int]),
        decreases keys@.len() - p,
    {
        if p >= keys.len() {
            break;
        }
        match compare_text(&keys[p], &k) {
            PathOrder::Less => {
                p = p + 1;
            },
            PathOrder::Equal => {
                assert(s[p as int] == k@);
                return;
            },
            PathOrder::Greater => {
                break;
            },
        }
    }
    let ghost kv = k@;
    keys.insert(p, k);
    let ghost t = s.insert(p as int, kv);
    assert(keys_view(keys@) =~= t);
    assert forall|i: int, j: int| 0 <= i < j < t.len() implies text_less(#[trigger] t[i], #[trigger] t[j]) by {
        if j < p {
        } else if j == p {
        } else if i == p {
            if j - 1 > p {
                lemma_text_less_transitive(kv, s[p as int], s[j - 1]);
            }
        } else if i < p {
        } else {
        }
    }
    assert forall|x: Seq<char>| t.contains(x) <==> (s.contains(x) || x == kv) by {
        if t.contains(x) {
            let w = choose|w: int| 0 <= w < t.len() && t[w] == x;
            if w < p {
                assert(s[w] == x);
            } else if w > p {
                assert(s[w - 1] == x);
            }
        }
        if s.contains(x) {
            let w = choose|w: int| 0 <= w < s.len() && s[w] == x;
            if w < p {
                assert(t[w] == x);
            } else {
                assert(t[w + 1] == x);
            }
        }
        if x == kv {
            assert(t[p as int] == x);
        }
    }
}

/// The record of a key, through its index entries.
fn record_of<'a>(entries: &Vec<(Vec<char>, usize)>, recs: &'a Vec<Vec<String>>, k: &Vec<char>) -> (res: Option<&'a Vec<String>>)
    requires
        forall|j: int| 0 <= j < entries@.len() ==> (#[trigger] entries@[j]).1 < recs@.len(),
    ensures
        match res {
            Some(r) => exists|j: int|
                0 <= j < entries@.len() && entries@[j].0@ == k@ && *r == recs@[entries@[j].1 as int],
            None => !entry_keys(entries@).contains(k@),
        },
{
    match find_key(entries, k) {
        Some(j) => {
            let i = entries[j].1;
            Some(&recs[i])
        },
        None => {
            assert(!entry_keys(entries@).contains(k@)) by {
                if entry_keys(entries@).contains(k@) {
                    let w = choose|w: int| 0 <= w < entry_keys(entries@).len() && entry_keys(entries@)[w] == k@;
                    assert(entries@[w].0@ == k@);
                }
            }
            None
        },
    }
}

impl CsvDiffEngine {
    pub fn new() -> (res: Self)
        ensures
            res.mode == CsvCompareMode::RowByRow,
            res.key_columns@.len() == 0,
            res.max_row_diffs == 100,
    {
        CsvDiffEngine { mode: CsvCompareMode::RowByRow, key_columns: Vec::new(), max_row_diffs: 100 }
    }

    pub fn with_mode(self, mode: CsvCompareMode) -> (res: Self)
        ensures
            res.mode == mode,
            res.key_columns == self.key_columns,
            res.max_row_diffs == self.max_row_diffs,
    {
        CsvDiffEngine { mode, ..self }
    }

    /// Sets the key columns; a non-empty list selects comparison by key.
    pub fn with_key_columns(self, columns: Vec<String>) -> (res: Self)
        ensures
            res.key_columns == columns,
            res.mode == if columns@.len() > 0 { CsvCompareMode::ByKey } else { self.mode },
            res.max_row_diffs == self.max_row_diffs,
    {
        let mode = if columns.len() > 0 { CsvCompareMode::ByKey } else { self.mode };
        CsvDiffEngine { mode, key_columns: columns, max_row_diffs: self.max_row_diffs }
    }

    pub fn with_max_row_diffs(self, max: usize) -> (res: Self)
        ensures
            res.max_row_diffs == max,
            res.mode == self.mode,
            res.key_columns == self.key_columns,
    {
        CsvDiffEngine { max_row_diffs: max, ..self }
    }

    /// The positions of this engine's key columns in `headers`.
    pub fn key_column_indices(&self, headers: &Vec<String>) -> (res: Vec<usize>)
        ensures
            idx_view(res@) == key_indices(rec_view(*headers), rec_view(self.key_columns)),
    {
        find_key_indices(headers, &self.key_columns)
    }

    /// Compares two tables row by row in order.
    pub fn compare_row_by_row(
        &self,
        left_headers: &Vec<String>,
        right_headers: &Vec<String>,
        left_records: &Vec<Vec<String>>,
        right_records: &Vec<Vec<String>>,
    ) -> (res: CsvDiffResult)
        ensures
            row_by_row_ok(
                res,
                self.max_row_diffs as int,
                rec_view(*left_headers),
                rec_view(*right_headers),
                recs_view(left_records@),
                recs_view(right_records@),
            ),
    {
        let ghost lv = recs_view(left_records@);
        let ghost rv = recs_view(right_records@);
        let ghost hv = rec_view(*left_headers);
        let ghost max = self.max_row_diffs as int;
        let ghost pairs = positional_pairs(lv, rv);
        let n = if left_records.len() >= right_records.len() { left_records.len() } else { right_records.len() };
        let mut c = Counts { different: 0, left_only: 0, right_only: 0, identical: 0, row_diffs: Vec::new() };
        assert(counts_view(c) =~= tally(hv, max, pairs.take(0)));
        for i in 0..n
            invariant
                n == pairs.len(),
                lv == recs_view(left_records@),
                rv == recs_view(right_records@),
                hv == rec_view(*left_headers),
                max == self.max_row_diffs as int,
                pairs == positional_pairs(lv, rv),
                counts_view(c) == tally(hv, max, pairs.take(i as int)),
                counts_sum(c) <= i,
        {
            let l = if i < left_records.len() { Some(&left_records[i]) } else { None };
            let r = if i < right_records.len() { Some(&right_records[i]) } else { None };
            assert(pairs.take(i + 1).drop_last() =~= pairs.take(i as int));
            assert(pairs.take(i + 1).last() == (opt_rec(l), opt_rec(r)));
            count_row(left_headers, self.max_row_diffs, &mut c, i + 1, l, r);
        }
        assert(pairs.take(n as int) =~= pairs);
        let headers_match = records_equal(left_headers, right_headers);
        CsvDiffResult {
            total_rows: n,
            different_rows: c.different,
            left_only_rows: c.left_only,
            right_only_rows: c.right_only,
            identical_rows: c.identical,
            headers_match,
            left_headers: copy_record(left_headers),
            right_headers: copy_record(right_headers),
            row_diffs: c.row_diffs,
        }
    }

    /// Compares two tables by the keys at `idx`, in increasing key order.
    fn compare_by_key(
        &self,
        left_headers: &Vec<String>,
        right_headers: &Vec<String>,
        left_records: &Vec<Vec<String>>,
        right_records: &Vec<Vec<String>>,
        idx: &Vec<usize>,
    ) -> (res: CsvDiffResult)
        ensures
            exists|keys: Seq<Seq<char>>|
                by_key_ok(
                    res,
                    self.max_row_diffs as int,
                    rec_view(*left_headers),
                    rec_view(*right_headers),
                    recs_view(left_records@),
                    recs_view(right_records@),
                    idx_view(idx@),
                    keys,
                ),
    {
        let ghost lv = recs_view(left_records@);
        let ghost rv = recs_view(right_records@);
        let ghost hv = rec_view(*left_headers);
        let ghost max = self.max_row_diffs as int;
        let ghost iv = idx_view(idx@);
        let ghost lm = keyed(lv, iv);
        let ghost rm = keyed(rv, iv);
        let lentries = index_by_key(left_records, idx);
        let rentries = index_by_key(right_records, idx);
        let mut keys: Vec<Vec<char>> = Vec::new();
        assert(keys_view(keys@) =~= Seq::<Seq<char>>::empty());
        let nl = lentries.len();
        for i in 0..nl
            invariant
                nl == lentries@.len(),
                strictly_sorted(keys_view(keys@)),
                forall|x: Seq<char>| keys_view(keys@).contains(x) <==> entry_keys(lentries@).take(i as int).contains(x),
        {
            let kc = slice_chars(lentries[i].0.as_slice(), 0, lentries[i].0.len());
            assert(kc@ =~= lentries@[i as int].0@);
            let ghost before = keys_view(keys@);
            insert_sorted(&mut keys, kc);
            let ghost pre = entry_keys(lentries@).take(i as int);
            let ghost post = entry_keys(lentries@).take(i + 1);
            assert(post =~= pre.push(kc@));
            assert forall|x: Seq<char>| keys_view(keys@).contains(x) <==> post.contains(x) by {
                if pre.contains(x) {
                    let w = choose|w: int| 0 <= w < pre.len() && pre[w] == x;
                    assert(post[w] == x);
                }
                if post.contains(x) && x != kc@ {
                    let w = choose|w: int| 0 <= w < post.len() && post[w] == x;
                    assert(pre[w] == x);
                }
                if x == kc@ {
                    assert(post[i as int] == x);
                }
            }
        }
        assert(entry_keys(lentries@).take(nl as int) =~= entry_keys(lentries@));
        let nr = rentries.len();
        for i in 0..nr
            invariant
                nr == rentries@.len(),
                nl == lentries@.len(),
                strictly_sorted(keys_view(keys@)),
                forall|x: Seq<char>|
                    keys_view(keys@).contains(x) <==> (entry_keys(lentries@).contains(x) || entry_keys(
                        rentries@,
                    ).take(i as int).contains(x)),
        {
            let kc = slice_chars(rentries[i].0.as_slice(), 0, rentries[i].0.len());
            assert(kc@ =~= rentries@[i as int].0@);
            insert_sorted(&mut keys, kc);
            let ghost pre = entry_keys(rentries@).take(i as int);
            let ghost post = entry_keys(rentries@).take(i + 1);
            assert(post =~= pre.push(kc@));
            assert forall|x: Seq<char>| pre.contains(x) || x == kc@ <==> post.contains(x) by {
                if pre.contains(x) {
                    let w = choose|w: int| 0 <= w < pre.len() && pre[w] == x;
                    assert(post[w] == x);
                }
                if post.contains(x) && x != kc@ {
                    let w = choose|w: int| 0 <= w < post.len() && post[w] == x;
                    assert(pre[w] == x);
                }
                if x == kc@ {
                    assert(post[i as int] == x);
                }
            }
        }
        assert(entry_keys(rentries@).take(nr as int) =~= entry_keys(rentries@));
        let ghost ks = keys_view(keys@);
        let ghost pairs = keyed_pairs(lm, rm, ks);
        let nk = keys.len();
        let mut c = Counts { different: 0, left_only: 0, right_only: 0, identical: 0, row_diffs: Vec::new() };
        assert(counts_view(c) =~= tally(hv, max, pairs.take(0)));
        for t in 0..nk
            invariant
                nk == keys@.len(),
                ks == keys_view(keys@),
                pairs == keyed_pairs(lm, rm, ks),
                hv == rec_view(*left_headers),
                max == self.max_row_diffs as int,
                lv == recs_view(left_records@),
                rv == recs_view(right_records@),
                indexes(lentries@, lv, lm),
                indexes(rentries@, rv, rm),
                counts_view(c) == tally(hv, max, pairs.take(t as int)),
                counts_sum(c) <= t,
        {
            let l = record_of(&lentries, left_records, &keys[t]);
            let r = record_of(&rentries, right_records, &keys[t]);
            let ghost k = ks[t as int];
            assert(opt_rec(l) == lookup(lm, k)) by {
                if l.is_some() {
                    let j = choose|j: int|
                        0 <= j < lentries@.len() && lentries@[j].0@ == k && *l.unwrap() == left_records@[lentries@[j].1 as int];
                    assert(entry_keys(lentries@)[j] == k);
                }
            }
            assert(opt_rec(r) == lookup(rm, k)) by {
                if r.is_some() {
                    let j = choose|j: int|
                        0 <= j < rentries@.len() && rentries@[j].0@ == k && *r.unwrap() == right_records@[rentries@[j].1 as int];
                    assert(entry_keys(rentries@)[j] == k);
                }
            }
            assert(pairs.take(t + 1).drop_last() =~= pairs.take(t as int));
            assert(pairs.take(t + 1).last() == (opt_rec(l), opt_rec(r)));
            count_row(left_headers, self.max_row_diffs, &mut c, t + 1, l, r);
        }
        assert(pairs.take(nk as int) =~= pairs);
        proof {
            assert(lm.dom() =~= entry_keys(lentries@).to_set());
            assert(rm.dom() =~= entry_keys(rentries@).to_set());
            entry_keys(lentries@).unique_seq_to_set();
            entry_keys(rentries@).unique_seq_to_set();
        }
        let total = if lentries.len() >= rentries.len() { lentries.len() } else { rentries.len() };
        let headers_match = records_equal(left_headers, right_headers);
        let res = CsvDiffResult {
            total_rows: total,
            different_rows: c.different,
            left_only_rows: c.left_only,
            right_only_rows: c.right_only,
            identical_rows: c.identical,
            headers_match,
            left_headers: copy_record(left_headers),
            right_headers: copy_record(right_headers),
            row_diffs: c.row_diffs,
        };
        assert(by_key_ok(res, max, hv, rec_view(*right_headers), lv, rv, iv, ks));
        res
    }
}

/// Message of the refusal to compare by key without a usable key column.
pub const NO_KEY_COLUMNS: &'static str = "No valid key columns found in CSV headers";

/// The outcome of comparing two parsed tables.
pub open spec fn tables_ok(
    engine: CsvDiffEngine,
    lh: Rec,
    rh: Rec,
    l: Seq<Rec>,
    r: Seq<Rec>,
    res: Result<CsvDiffResult, RCompareError>,
) -> bool {
    let max = engine.max_row_diffs as int;
    let idx = key_indices(lh, rec_view(engine.key_columns));
    if engine.mode == CsvCompareMode::RowByRow {
        res is Ok && row_by_row_ok(res->Ok_0, max, lh, rh, l, r)
    } else if idx.len() == 0 {
        res is Err && res->Err_0 is Comparison && res->Err_0->Comparison_0@ == NO_KEY_COLUMNS@
    } else {
        res is Ok && exists|keys: Seq<Seq<char>>| by_key_ok(res->Ok_0, max, lh, rh, l, r, idx, keys)
    }
}

/// What the `csv` crate's default reader (first row as headers) reads as
/// the header row of the data, or the text of its error.
pub uninterp spec fn csv_headers_of(data: Seq<u8>) -> Result<Rec, Seq<char>>;

/// What the `csv` crate's default reader reads as the records after the
/// header row, or the text of the first error.
pub uninterp spec fn csv_records_of(data: Seq<u8>) -> Result<Seq<Rec>, Seq<char>>;

/// Reads the header row of CSV data with `csv::Reader::from_reader` and
/// `Reader::headers`. Claimed: the fields, or the error's text, are the
/// named result `csv_headers_of` of the bytes.
#[verifier::external_body]
fn read_csv_headers(data: &[u8]) -> (res: Result<Vec<String>, String>)
    ensures
        match res {
            Ok(h) => csv_headers_of(data@) == Ok::<Rec, Seq<char>>(rec_view(h)),
            Err(e) => csv_headers_of(data@) == Err::<Rec, Seq<char>>(e@),
        },
{
    let mut reader = csv::Reader::from_reader(data);
    match reader.headers() {
        Ok(h) => Ok(h.iter().map(|f| f.to_string()).collect()),
        Err(e) => Err(e.to_string()),
    }
}

/// Reads the records of CSV data with `csv::Reader::from_reader` and
/// `Reader::records`, stopping at the first error. Claimed: the records'
/// fields, or the first error's text, are the named result
/// `csv_records_of` of the bytes.
#[verifier::external_body]
fn read_csv_records(data: &[u8]) -> (res: Result<Vec<Vec<String>>, String>)
    ensures
        match res {
            Ok(v) => csv_records_of(data@) == Ok::<Seq<Rec>, Seq<char>>(recs_view(v@)),
            Err(e) => csv_records_of(data@) == Err::<Seq<Rec>, Seq<char>>(e@),
        },
{
    let mut reader = csv::Reader::from_reader(data);
    reader
        .records()
        .map(|r| r.map(|rec| rec.iter().map(|f| f.to_string()).collect()))
        .collect::<Result<Vec<Vec<String>>, csv::Error>>()
        .map_err(|e| e.to_string())
}

/// The error for a failed read, with its message.
pub open spec fn io_error_is(res: Result<CsvDiffResult, RCompareError>, prefix: Seq<char>, e: Seq<char>) -> bool {
    res matches Err(RCompareError::Io(m)) && m@ == prefix + e
}

pub const LEFT_HEADERS_FAILED: &'static str = "Failed to read left CSV headers: ";
pub const RIGHT_HEADERS_FAILED: &'static str = "Failed to read right CSV headers: ";
pub const LEFT_RECORDS_FAILED: &'static str = "Failed to read left CSV records: ";
pub const RIGHT_RECORDS_FAILED: &'static str = "Failed to read right CSV records: ";
pub const LEFT_RECORD_FAILED: &'static str = "Failed to read left CSV record: ";
pub const RIGHT_RECORD_FAILED: &'static str = "Failed to read right CSV record: ";

/// The outcome of comparing two CSV texts, over what the `csv` crate reads
/// of them: headers first, then (after the key columns are checked, when
/// comparing by key) the records.
pub open spec fn data_ok(engine: CsvDiffEngine, l: Seq<u8>, r: Seq<u8>, res: Result<CsvDiffResult, RCompareError>) -> bool {
    match (csv_headers_of(l), csv_headers_of(r)) {
        (Err(e), _) => io_error_is(res, LEFT_HEADERS_FAILED@, e),
        (Ok(_), Err(e)) => io_error_is(res, RIGHT_HEADERS_FAILED@, e),
        (Ok(lh), Ok(rh)) => {
            let by_key = engine.mode == CsvCompareMode::ByKey;
            if by_key && key_indices(lh, rec_view(engine.key_columns)).len() == 0 {
                res matches Err(RCompareError::Comparison(m)) && m@ == NO_KEY_COLUMNS@
            } else {
                match (csv_records_of(l), csv_records_of(r)) {
                    (Err(e), _) => io_error_is(res, if by_key { LEFT_RECORD_FAILED@ } else { LEFT_RECORDS_FAILED@ }, e),
                    (Ok(_), Err(e)) => io_error_is(res, if by_key { RIGHT_RECORD_FAILED@ } else { RIGHT_RECORDS_FAILED@ }, e),
                    (Ok(lr), Ok(rr)) => tables_ok(engine, lh, rh, lr, rr, res),
                }
            }
        },
    }
}

impl CsvDiffEngine {
    /// Compares two parsed tables: their header rows and their records.
    pub fn compare_tables(
        &self,
        left_headers: &Vec<String>,
        right_headers: &Vec<String>,
        left_records: &Vec<Vec<String>>,
        right_records: &Vec<Vec<String>>,
    ) -> (res: Result<CsvDiffResult, RCompareError>)
        ensures
            tables_ok(
                *self,
                rec_view(*left_headers),
                rec_view(*right_headers),
                recs_view(left_records@),
                recs_view(right_records@),
                res,
            ),
    {
        match self.mode {
            CsvCompareMode::RowByRow => {
                let d = self.compare_row_by_row(left_headers, right_headers, left_records, right_records);
                let res: Result<CsvDiffResult, RCompareError> = Ok(d);
                res
            },
            CsvCompareMode::ByKey => {
                let idx = self.key_column_indices(left_headers);
                if idx.len() == 0 {
                    assert(idx_view(idx@).len() == 0);
                    Err(RCompareError::Comparison(NO_KEY_COLUMNS.to_owned()))
                } else {
                    let d = self.compare_by_key(left_headers, right_headers, left_records, right_records, &idx);
                    let res: Result<CsvDiffResult, RCompareError> = Ok(d);
                    proof {
                        let lh = rec_view(*left_headers);
                        let rh = rec_view(*right_headers);
                        let lr = recs_view(left_records@);
                        let rr = recs_view(right_records@);
                        let max = self.max_row_diffs as int;
                        let iv = idx_view(idx@);
                        let keys = choose|keys: Seq<Seq<char>>| by_key_ok(d, max, lh, rh, lr, rr, iv, keys);
                        assert(by_key_ok(res->Ok_0, max, lh, rh, lr, rr, key_indices(lh, rec_view(self.key_columns)), keys));
                    }
                    res
                }
            },
        }
    }

    /// Compares two CSV texts (the bytes of two files).
    pub fn compare_data(&self, left: &[u8], right: &[u8]) -> (res: Result<CsvDiffResult, RCompareError>)
        ensures
            data_ok(*self, left@, right@, res),
    {
        let lh = match read_csv_headers(left) {
            Ok(h) => h,
            Err(e) => return Err(RCompareError::Io(concat_str(LEFT_HEADERS_FAILED, e.as_str()))),
        };
        let rh = match read_csv_headers(right) {
            Ok(h) => h,
            Err(e) => return Err(RCompareError::Io(concat_str(RIGHT_HEADERS_FAILED, e.as_str()))),
        };
        let by_key = self.mode == CsvCompareMode::ByKey;
        if by_key {
            let idx = self.key_column_indices(&lh);
            if idx.len() == 0 {
                return Err(RCompareError::Comparison(NO_KEY_COLUMNS.to_owned()));
            }
        }
        let lr = match read_csv_records(left) {
            Ok(v) => v,
            Err(e) => {
                let prefix = if by_key { LEFT_RECORD_FAILED } else { LEFT_RECORDS_FAILED };
                return Err(RCompareError::Io(concat_str(prefix, e.as_str())));
            },
        };
        let rr = match read_csv_records(right) {
            Ok(v) => v,
            Err(e) => {
                let prefix = if by_key { RIGHT_RECORD_FAILED } else { RIGHT_RECORDS_FAILED };
                return Err(RCompareError::Io(concat_str(prefix, e.as_str())));
            },
        };
        self.compare_tables(&lh, &rh, &lr, &rr)
    }
}

impl Default for CsvDiffEngine {
    fn default() -> (res: Self)
        ensures
            res.mode == CsvCompareMode::RowByRow,
            res.key_columns@.len() == 0,
            res.max_row_diffs == 100,
    {
        Self::new()
    }
}

/// Extensions of CSV files.
pub const CSV_EXTENSIONS: [&'static str; 2] = ["csv", "tsv"];

/// Whether a file is a CSV file, by its extension.
pub fn is_csv_file(path: &str) -> (res: bool)
    ensures
        res == extension_in(path@, CSV_EXTENSIONS@),
{
    has_extension_in(path, &CSV_EXTENSIONS)
}



/// Comparing a table with itself row by row finds every row identical and
/// records no difference.
pub proof fn lemma_row_by_row_self(headers: Rec, max: int, rows: Seq<Rec>)
    ensures
        tally(headers, max, positional_pairs(rows, rows)) == (0int, 0int, 0int, rows.len() as int, Seq::<RowModel>::empty()),
{
    let pairs = positional_pairs(rows, rows);
    lemma_tally_all_equal(headers, max, pairs, pairs.len() as int);
    assert(pairs.take(pairs.len() as int) =~= pairs);
}

proof fn lemma_tally_all_equal(headers: Rec, max: int, pairs: Seq<RowPair>, n: int)
    requires
        0 <= n <= pairs.len(),
        forall|i: int| 0 <= i < pairs.len() ==> (#[trigger] pairs[i]).0 is Some && pairs[i].0 == pairs[i].1,
    ensures
        tally(headers, max, pairs.take(n)) == (0int, 0int, 0int, n, Seq::<RowModel>::empty()),
    decreases n,
{
    if n > 0 {
        lemma_tally_all_equal(headers, max, pairs, n - 1);
        assert(pairs.take(n).drop_last() =~= pairs.take(n - 1));
        assert(pairs.take(n).last() == pairs[n - 1]);
    }
}

/// Every row of a positional comparison is counted exactly once: the
/// identical, different, left-only and right-only rows add up to the
/// longer table's length; and no more differences are recorded than the
/// limit allows.
pub proof fn lemma_row_by_row_counts(headers: Rec, max: int, l: Seq<Rec>, r: Seq<Rec>)
    requires
        max >= 0,
    ensures
        ({
            let t = tally(headers, max, positional_pairs(l, r));
            &&& t.0 + t.1 + t.2 + t.3 == max_len(l.len(), r.len())
            &&& t.4.len() <= max
        }),
{
    let pairs = positional_pairs(l, r);
    lemma_tally_counts(headers, max, pairs, pairs.len() as int);
    assert(pairs.take(pairs.len() as int) =~= pairs);
}

proof fn lemma_tally_counts(headers: Rec, max: int, pairs: Seq<RowPair>, n: int)
    requires
        0 <= n <= pairs.len(),
        max >= 0,
        forall|i: int| 0 <= i < pairs.len() ==> (#[trigger] pairs[i]).0 is Some || pairs[i].1 is Some,
    ensures
        ({
            let t = tally(headers, max, pairs.take(n));
            &&& t.0 + t.1 + t.2 + t.3 == n
            &&& t.4.len() <= max
        }),
    decreases n,
{
    if n > 0 {
        lemma_tally_counts(headers, max, pairs, n - 1);
        assert(pairs.take(n).drop_last() =~= pairs.take(n - 1));
        assert(pairs.take(n).last() == pairs[n - 1]);
    }
}

} // verus!
