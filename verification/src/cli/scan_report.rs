//! The summary and JSON report of a scan, which entries a report shows,
//! how long paths are shortened, and the list of paths a copy works on.

use crate::csv_diff::{is_csv_file, CSV_EXTENSIONS};
use crate::excel_diff::{is_excel_file, EXCEL_EXTENSIONS};
use crate::file_kinds::{extension_in, is_parquet_file, is_text_file, PARQUET_EXTENSIONS, TEXT_EXTENSIONS};
use crate::image_diff::{is_image_file, IMAGE_EXTENSIONS};
use crate::json_diff::{is_json_file, is_yaml_file, JSON_EXTENSIONS, YAML_EXTENSIONS};
use crate::text::{chars_of, string_from_chars};
use crate::types::{DiffNode, DiffStatus, FileEntry};
use vstd::prelude::*;

verus! {

/// Counts of a scan's outcome.
#[derive(Debug, Clone, Copy)]
pub struct ScanResult {
    /// Total number of entries compared.
    pub total: usize,
    /// Identical files/directories.
    pub identical: usize,
    /// Different files.
    pub different: usize,
    /// Files only on the left.
    pub left_only: usize,
    /// Files only on the right.
    pub right_only: usize,
    /// Files of equal size but different timestamps, not compared further.
    pub unchecked: usize,
}

impl ScanResult {
    /// Whether any difference was found.
    pub fn has_differences(&self) -> (res: bool)
        ensures
            res == (self.different > 0 || self.left_only > 0 || self.right_only > 0 || self.unchecked > 0),
    {
        self.different > 0 || self.left_only > 0 || self.right_only > 0 || self.unchecked > 0
    }

    /// The process exit code: 2 when differences were found, 0 otherwise.
    pub fn exit_code(&self) -> (res: i32)
        ensures
            res == if self.different > 0 || self.left_only > 0 || self.right_only > 0 || self.unchecked > 0 {
                2i32
            } else {
                0i32
            },
    {
        if self.has_differences() {
            2
        } else {
            0
        }
    }
}

/// Whether an entry of the given status is shown: identical entries are
/// hidden when only differences are asked for, and each status can be
/// hidden on its own.
pub fn should_show_entry(
    status: &DiffStatus,
    diff_only: bool,
    hide_identical: bool,
    hide_different: bool,
    hide_left_only: bool,
    hide_right_only: bool,
    hide_unchecked: bool,
) -> (res: bool)
    ensures
        res == match *status {
            DiffStatus::Same => !diff_only && !hide_identical,
            DiffStatus::Different => !hide_different,
            DiffStatus::OrphanLeft => !hide_left_only,
            DiffStatus::OrphanRight => !hide_right_only,
            DiffStatus::Unchecked => !hide_unchecked,
        },
{
    if diff_only && *status == DiffStatus::Same {
        return false;
    }
    match status {
        DiffStatus::Same => !hide_identical,
        DiffStatus::Different => !hide_different,
        DiffStatus::OrphanLeft => !hide_left_only,
        DiffStatus::OrphanRight => !hide_right_only,
        DiffStatus::Unchecked => !hide_unchecked,
    }
}

impl ScanResult {
    /// The counts of a scan's nodes by status.
    pub fn of_nodes(nodes: &Vec<DiffNode>) -> (res: ScanResult)
        ensures
            res.total == nodes@.len(),
            res.identical == count_status(nodes@, DiffStatus::Same, nodes@.len() as int),
            res.different == count_status(nodes@, DiffStatus::Different, nodes@.len() as int),
            res.left_only == count_status(nodes@, DiffStatus::OrphanLeft, nodes@.len() as int),
            res.right_only == count_status(nodes@, DiffStatus::OrphanRight, nodes@.len() as int),
            res.unchecked == count_status(nodes@, DiffStatus::Unchecked, nodes@.len() as int),
    {
        let n = nodes.len();
        let mut r = ScanResult { total: n, identical: 0, different: 0, left_only: 0, right_only: 0, unchecked: 0 };
        for i in 0..n
            invariant
                n == nodes@.len(),
                r.total == n,
                r.identical == count_status(nodes@, DiffStatus::Same, i as int),
                r.different == count_status(nodes@, DiffStatus::Different, i as int),
                r.left_only == count_status(nodes@, DiffStatus::OrphanLeft, i as int),
                r.right_only == count_status(nodes@, DiffStatus::OrphanRight, i as int),
                r.unchecked == count_status(nodes@, DiffStatus::Unchecked, i as int),
                r.identical + r.different + r.left_only + r.right_only + r.unchecked == i,
        {
            match nodes[i].status {
                DiffStatus::Same => r.identical = r.identical + 1,
                DiffStatus::Different => r.different = r.different + 1,
                DiffStatus::OrphanLeft => r.left_only = r.left_only + 1,
                DiffStatus::OrphanRight => r.right_only = r.right_only + 1,
                DiffStatus::Unchecked => r.unchecked = r.unchecked + 1,
            }
        }
        r
    }
}

/// Every node is counted under exactly one status.
pub proof fn lemma_status_counts_total(nodes: Seq<DiffNode>, k: int)
    requires
        0 <= k <= nodes.len(),
    ensures
        count_status(nodes, DiffStatus::Same, k) + count_status(nodes, DiffStatus::Different, k) + count_status(
            nodes,
            DiffStatus::OrphanLeft,
            k,
        ) + count_status(nodes, DiffStatus::OrphanRight, k) + count_status(nodes, DiffStatus::Unchecked, k) == k,
    decreases k,
{
    if k > 0 {
        lemma_status_counts_total(nodes, k - 1);
    }
}

pub const ELLIPSIS: &'static str = "...";

/// A path shortened to `max_len` characters where it is longer: `...`
/// followed by its last `max_len - 3` characters (none when `max_len` is
/// below 3).
pub open spec fn truncated(path: Seq<char>, max_len: int) -> Seq<char> {
    if path.len() <= max_len {
        path
    } else {
        let keep = if max_len >= 3 { max_len - 3 } else { 0 };
        ELLIPSIS@ + path.skip(path.len() - keep)
    }
}

/// Shortens a path for display, keeping its end (the file name) visible.
pub fn truncate_path(path: &str, max_len: usize) -> (res: String)
    ensures
        res@ == truncated(path@, max_len as int),
{
    let cs = chars_of(path);
    if cs.len() <= max_len {
        return string_from_chars(cs.as_slice());
    }
    let keep = if max_len >= 3 { max_len - 3 } else { 0 };
    let skip = cs.len() - keep;
    let mut out = ELLIPSIS.to_owned();
    proof {
        reveal_strlit("...");
    }
    let n = cs.len();
    let ghost base = out@;
    for i in skip..n
        invariant
            n == cs@.len(),
            skip <= n,
            out@ == base + cs@.subrange(skip as int, i as int),
    {
        crate::text::string_push(&mut out, cs[i]);
        assert(cs@.subrange(skip as int, i + 1) =~= cs@.subrange(skip as int, i as int).push(cs@[i as int]));
    }
    assert(cs@.subrange(skip as int, n as int) =~= cs@.skip(skip as int));
    out
}

/// Whole seconds since the Unix epoch of a time given in nanoseconds since
/// then; none for a time before the epoch.
pub fn system_time_to_unix(time_ns: i128) -> (res: Option<u64>)
    requires
        time_ns / 1_000_000_000 <= u64::MAX,
    ensures
        res == if time_ns >= 0 { Some((time_ns / 1_000_000_000) as u64) } else { None::<u64> },
{
    if time_ns >= 0 {
        Some((time_ns / 1_000_000_000) as u64)
    } else {
        None
    }
}

/// One side of an entry in a JSON report.
#[derive(Debug, Clone, Copy, PartialEq, Eq, Structural)]
pub struct JsonFileSide {
    pub size: u64,
    pub modified_unix: Option<u64>,
    pub is_dir: bool,
}

/// Whether an entry's time fits the report's seconds.
pub open spec fn time_fits(e: FileEntry) -> bool {
    e.modified / 1_000_000_000 <= u64::MAX
}

/// The report side of an entry.
pub open spec fn side_of(e: FileEntry) -> JsonFileSide {
    JsonFileSide {
        size: e.size,
        modified_unix: if e.modified >= 0 { Some((e.modified / 1_000_000_000) as u64) } else { None::<u64> },
        is_dir: e.is_dir,
    }
}

/// The report side of an entry: size, modification second, kind.
pub fn json_side(entry: &FileEntry) -> (res: JsonFileSide)
    requires
        time_fits(*entry),
    ensures
        res == side_of(*entry),
{
    JsonFileSide { size: entry.size, modified_unix: system_time_to_unix(entry.modified), is_dir: entry.is_dir }
}

/// Counts by status.
#[derive(Debug, Clone, Copy, PartialEq, Eq, Structural)]
pub struct JsonSummary {
    pub total: usize,
    pub same: usize,
    pub different: usize,
    pub orphan_left: usize,
    pub orphan_right: usize,
    pub unchecked: usize,
}

/// An entry of a JSON report.
#[derive(Debug, Clone)]
pub struct JsonEntry {
    pub path: String,
    pub status: DiffStatus,
    pub left: Option<JsonFileSide>,
    pub right: Option<JsonFileSide>,
}

/// The JSON report of a scan.
#[derive(Debug, Clone)]
pub struct JsonReport {
    pub schema_version: String,
    pub left: String,
    pub right: String,
    pub summary: JsonSummary,
    pub warnings: Vec<String>,
    pub entries: Vec<JsonEntry>,
}

pub const REPORT_SCHEMA: &'static str = "1.1.0";

/// Which entries a report shows.
#[derive(Debug, Clone, Copy)]
pub struct ReportFilter {
    pub diff_only: bool,
    pub hide_identical: bool,
    pub hide_different: bool,
    pub hide_left_only: bool,
    pub hide_right_only: bool,
    pub hide_unchecked: bool,
}

pub open spec fn shown(f: ReportFilter, s: DiffStatus) -> bool {
    match s {
        DiffStatus::Same => !f.diff_only && !f.hide_identical,
        DiffStatus::Different => !f.hide_different,
        DiffStatus::OrphanLeft => !f.hide_left_only,
        DiffStatus::OrphanRight => !f.hide_right_only,
        DiffStatus::Unchecked => !f.hide_unchecked,
    }
}

pub open spec fn opt_side(e: Option<FileEntry>) -> Option<JsonFileSide> {
    match e {
        Some(x) => Some(side_of(x)),
        None => None,
    }
}

/// Model of a report entry.
pub type EntryModel = (Seq<char>, DiffStatus, Option<JsonFileSide>, Option<JsonFileSide>);

pub open spec fn entry_model(e: JsonEntry) -> EntryModel {
    (e.path@, e.status, e.left, e.right)
}

pub open spec fn node_entry(n: DiffNode) -> EntryModel {
    (n.relative_path@, n.status, opt_side(n.left), opt_side(n.right))
}

/// The entries shown of the first `k` nodes.
pub open spec fn shown_entries(nodes: Seq<DiffNode>, f: ReportFilter, k: int) -> Seq<EntryModel>
    decreases k,
{
    if k <= 0 {
        Seq::empty()
    } else if shown(f, nodes[k - 1].status) {
        shown_entries(nodes, f, k - 1).push(node_entry(nodes[k - 1]))
    } else {
        shown_entries(nodes, f, k - 1)
    }
}

/// How many of the first `k` nodes have status `s`.
pub open spec fn count_status(nodes: Seq<DiffNode>, s: DiffStatus, k: int) -> int
    decreases k,
{
    if k <= 0 {
        0
    } else {
        count_status(nodes, s, k - 1) + if nodes[k - 1].status == s { 1int } else { 0int }
    }
}

/// Whether every node's entries have times that fit the report.
pub open spec fn nodes_fit(nodes: Seq<DiffNode>) -> bool {
    forall|i: int|
        0 <= i < nodes.len() ==> (#[trigger] nodes[i].left matches Some(e) ==> time_fits(e)) && (nodes[i].right matches Some(e)
            ==> time_fits(e))
}

fn opt_json_side(e: &Option<FileEntry>) -> (res: Option<JsonFileSide>)
    requires
        *e matches Some(x) ==> time_fits(x),
    ensures
        res == opt_side(*e),
{
    match e {
        Some(x) => Some(json_side(x)),
        None => None,
    }
}

/// The JSON report of a scan: counts of every status over all nodes, and
/// the entries of the nodes the filter shows, in order.
pub fn build_json_report(
    left: &str,
    right: &str,
    nodes: &Vec<DiffNode>,
    warnings: Vec<String>,
    filter: ReportFilter,
) -> (res: JsonReport)
    requires
        nodes_fit(nodes@),
    ensures
        res.schema_version@ == REPORT_SCHEMA@,
        res.left@ == left@,
        res.right@ == right@,
        res.warnings == warnings,
        res.summary.total == nodes@.len(),
        res.summary.same == count_status(nodes@, DiffStatus::Same, nodes@.len() as int),
        res.summary.different == count_status(nodes@, DiffStatus::Different, nodes@.len() as int),
        res.summary.orphan_left == count_status(nodes@, DiffStatus::OrphanLeft, nodes@.len() as int),
        res.summary.orphan_right == count_status(nodes@, DiffStatus::OrphanRight, nodes@.len() as int),
        res.summary.unchecked == count_status(nodes@, DiffStatus::Unchecked, nodes@.len() as int),
        res.entries@.map_values(|e: JsonEntry| entry_model(e)) == shown_entries(nodes@, filter, nodes@.len() as int),
{
    let n = nodes.len();
    let mut summary = JsonSummary { total: n, same: 0, different: 0, orphan_left: 0, orphan_right: 0, unchecked: 0 };
    let mut entries: Vec<JsonEntry> = Vec::new();
    for i in 0..n
        invariant
            n == nodes@.len(),
            nodes_fit(nodes@),
            summary.total == n,
            summary.same == count_status(nodes@, DiffStatus::Same, i as int),
            summary.different == count_status(nodes@, DiffStatus::Different, i as int),
            summary.orphan_left == count_status(nodes@, DiffStatus::OrphanLeft, i as int),
            summary.orphan_right == count_status(nodes@, DiffStatus::OrphanRight, i as int),
            summary.unchecked == count_status(nodes@, DiffStatus::Unchecked, i as int),
            summary.same + summary.different + summary.orphan_left + summary.orphan_right + summary.unchecked == i,
            entries@.map_values(|e: JsonEntry| entry_model(e)) == shown_entries(nodes@, filter, i as int),
    {
        let node = &nodes[i];
        match node.status {
            DiffStatus::Same => summary.same = summary.same + 1,
            DiffStatus::Different => summary.different = summary.different + 1,
            DiffStatus::OrphanLeft => summary.orphan_left = summary.orphan_left + 1,
            DiffStatus::OrphanRight => summary.orphan_right = summary.orphan_right + 1,
            DiffStatus::Unchecked => summary.unchecked = summary.unchecked + 1,
        }
        if should_show_entry(
            &node.status,
            filter.diff_only,
            filter.hide_identical,
            filter.hide_different,
            filter.hide_left_only,
            filter.hide_right_only,
            filter.hide_unchecked,
        ) {
            assert(nodes@[i as int].left matches Some(e) ==> time_fits(e));
            assert(nodes@[i as int].right matches Some(e) ==> time_fits(e));
            let e = JsonEntry {
                path: node.relative_path.as_str().to_owned(),
                status: node.status,
                left: opt_json_side(&node.left),
                right: opt_json_side(&node.right),
            };
            let ghost before = entries@;
            entries.push(e);
            assert(entries@.map_values(|e: JsonEntry| entry_model(e)) =~= before.map_values(
                |e: JsonEntry| entry_model(e),
            ).push(entry_model(e)));
        }
    }
    JsonReport {
        schema_version: REPORT_SCHEMA.to_owned(),
        left: left.to_owned(),
        right: right.to_owned(),
        summary,
        warnings,
        entries,
    }
}

/// Keeps the entries a report prints: none for a summary only, else at
/// most `max_results` of them (all when there is no limit).
pub fn limit_report_entries(report: &mut JsonReport, summary_only: bool, max_results: Option<usize>)
    ensures
        final(report).schema_version == old(report).schema_version,
        final(report).left == old(report).left,
        final(report).right == old(report).right,
        final(report).summary == old(report).summary,
        final(report).warnings == old(report).warnings,
        final(report).entries@ == if summary_only {
            Seq::<JsonEntry>::empty()
        } else {
            match max_results {
                Some(m) => if m < old(report).entries@.len() { old(report).entries@.take(m as int) } else { old(report).entries@ },
                None => old(report).entries@,
            }
        },
{
    if summary_only {
        report.entries.clear();
    } else {
        match max_results {
            Some(m) => report.entries.truncate(m),
            None => {},
        }
    }
}

/// A kind of file that a scan can analyse in detail.
#[derive(Debug, Clone, Copy, PartialEq, Eq, Structural)]
pub enum AnalysisKind {
    Image,
    Csv,
    Excel,
    Json,
    Yaml,
    Parquet,
    Text,
}

/// Whether a path names a file of the kind, by its extension.
pub open spec fn of_kind(kind: AnalysisKind, path: Seq<char>) -> bool {
    match kind {
        AnalysisKind::Image => extension_in(path, IMAGE_EXTENSIONS@),
        AnalysisKind::Csv => extension_in(path, CSV_EXTENSIONS@),
        AnalysisKind::Excel => extension_in(path, EXCEL_EXTENSIONS@),
        AnalysisKind::Json => extension_in(path, JSON_EXTENSIONS@),
        AnalysisKind::Yaml => extension_in(path, YAML_EXTENSIONS@),
        AnalysisKind::Parquet => extension_in(path, PARQUET_EXTENSIONS@),
        AnalysisKind::Text => extension_in(path, TEXT_EXTENSIONS@),
    }
}

/// Whether a path names a file of the kind.
pub fn is_of_kind(kind: AnalysisKind, path: &str) -> (res: bool)
    ensures
        res == of_kind(kind, path@),
{
    match kind {
        AnalysisKind::Image => is_image_file(path),
        AnalysisKind::Csv => is_csv_file(path),
        AnalysisKind::Excel => is_excel_file(path),
        AnalysisKind::Json => is_json_file(path),
        AnalysisKind::Yaml => is_yaml_file(path),
        AnalysisKind::Parquet => is_parquet_file(path),
        AnalysisKind::Text => is_text_file(path),
    }
}

/// Whether a node is analysed as a file of the kind: it differs or is
/// unchecked, and is on both sides, both paths of the kind.
pub open spec fn analysed(kind: AnalysisKind, n: DiffNode) -> bool {
    &&& (n.status == DiffStatus::Different || n.status == DiffStatus::Unchecked)
    &&& n.left is Some && n.right is Some
    &&& of_kind(kind, n.left->Some_0.path@) && of_kind(kind, n.right->Some_0.path@)
}

/// The positions of the nodes analysed as files of the kind, in order.
pub open spec fn analysed_positions(kind: AnalysisKind, nodes: Seq<DiffNode>, k: int) -> Seq<usize>
    decreases k,
{
    if k <= 0 {
        Seq::empty()
    } else if analysed(kind, nodes[k - 1]) {
        analysed_positions(kind, nodes, k - 1).push((k - 1) as usize)
    } else {
        analysed_positions(kind, nodes, k - 1)
    }
}

/// The positions of the nodes that a scan analyses as files of the kind.
pub fn analysis_candidates(nodes: &Vec<DiffNode>, kind: AnalysisKind) -> (res: Vec<usize>)
    ensures
        res@ == analysed_positions(kind, nodes@, nodes@.len() as int),
{
    let n = nodes.len();
    let mut out: Vec<usize> = Vec::new();
    for i in 0..n
        invariant
            n == nodes@.len(),
            out@ == analysed_positions(kind, nodes@, i as int),
    {
        let node = &nodes[i];
        let wanted = match (&node.left, &node.right) {
            (Some(l), Some(r)) => (node.status == DiffStatus::Different || node.status == DiffStatus::Unchecked)
                && is_of_kind(kind, l.path.as_str()) && is_of_kind(kind, r.path.as_str()),
            _ => false,
        };
        if wanted {
            out.push(i);
        }
    }
    out
}

} // verus!
