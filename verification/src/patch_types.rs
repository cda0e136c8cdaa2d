//! The patch model: a patch set holds file patches, a file patch holds
//! hunks, a hunk holds differences (changes, inserts, deletes and unchanged
//! context).

use vstd::prelude::*;

verus! {

/// Diff output format.
#[derive(Debug, Clone, Copy, PartialEq, Eq, Structural)]
pub enum DiffFormat {
    Unknown,
    Unified,
    Context,
    Normal,
    Ed,
    Rcs,
}

/// Which tool generated the diff output.
#[derive(Debug, Clone, Copy, PartialEq, Eq, Structural)]
pub enum DiffGenerator {
    Unknown,
    Diff,
    CvsDiff,
    Perforce,
    SubVersion,
}

/// Type of a single difference block.
#[derive(Debug, Clone, Copy, PartialEq, Eq, Structural)]
pub enum DifferenceType {
    Unchanged,
    Change,
    Insert,
    Delete,
}

/// Whether a hunk was part of the original diff or added during blending.
#[derive(Debug, Clone, Copy, PartialEq, Eq, Structural)]
pub enum HunkType {
    /// Original hunk from the parsed diff.
    Normal,
    /// Context hunk added by blending the original file into the model.
    AddedByBlend,
}

/// Mathematical content of a [`PatchDifference`]: lines as character sequences.
pub struct DifferenceModel {
    pub diff_type: DifferenceType,
    pub source_line_no: usize,
    pub dest_line_no: usize,
    pub tracking_dest_line_no: usize,
    pub source_lines: Seq<Seq<char>>,
    pub dest_lines: Seq<Seq<char>>,
    pub applied: bool,
    pub conflict: bool,
    pub unsaved: bool,
}

/// Mathematical content of a [`Hunk`].
pub struct HunkModel {
    pub source_start: usize,
    pub source_count: usize,
    pub dest_start: usize,
    pub dest_count: usize,
    pub function_name: Option<Seq<char>>,
    pub hunk_type: HunkType,
    pub differences: Seq<DifferenceModel>,
}

/// Mathematical content of a [`FilePatch`].
pub struct FilePatchModel {
    pub source: Seq<char>,
    pub destination: Seq<char>,
    pub source_timestamp: Seq<char>,
    pub dest_timestamp: Seq<char>,
    pub source_revision: Seq<char>,
    pub dest_revision: Seq<char>,
    pub hunks: Seq<HunkModel>,
    pub applied_count: usize,
    pub blended: bool,
}

/// Mathematical content of a [`PatchSet`].
pub struct PatchSetModel {
    pub files: Seq<FilePatchModel>,
    pub format: DiffFormat,
    pub generator: DiffGenerator,
}

/// The character sequences of a list of strings.
pub open spec fn lines_view(v: Seq<String>) -> Seq<Seq<char>> {
    v.map_values(|s: String| s@)
}

/// A complete patch set parsed from diff output, potentially covering
/// multiple files.
#[derive(Debug, Clone)]
pub struct PatchSet {
    /// One FilePatch per file pair in the diff.
    pub files: Vec<FilePatch>,
    /// Detected diff format.
    pub format: DiffFormat,
    /// Detected generator tool.
    pub generator: DiffGenerator,
}

/// Diff for a single file pair (source to destination).
#[derive(Debug, Clone)]
pub struct FilePatch {
    /// Full source path from the diff header.
    pub source: String,
    /// Full destination path from the diff header.
    pub destination: String,
    /// Source file timestamp from the diff header.
    pub source_timestamp: String,
    /// Destination file timestamp from the diff header.
    pub dest_timestamp: String,
    /// Source revision string (e.g., from CVS or Perforce).
    pub source_revision: String,
    /// Destination revision string.
    pub dest_revision: String,
    /// Ordered list of hunks (original and blended ones).
    pub hunks: Vec<Hunk>,
    /// Number of currently applied differences.
    pub applied_count: usize,
    /// Whether the original file has been blended into this model.
    pub blended: bool,
}

/// A hunk groups related differences with surrounding context.
#[derive(Debug, Clone)]
pub struct Hunk {
    /// Starting line number in the source file (1-based).
    pub source_start: usize,
    /// Number of lines from the source file in this hunk.
    pub source_count: usize,
    /// Starting line number in the destination file (1-based).
    pub dest_start: usize,
    /// Number of lines from the destination file in this hunk.
    pub dest_count: usize,
    /// Optional function/context name from the hunk header.
    pub function_name: Option<String>,
    /// Whether this hunk was in the original diff or added by blending.
    pub hunk_type: HunkType,
    /// Ordered differences within this hunk (including unchanged context).
    pub differences: Vec<PatchDifference>,
}

/// A single difference block (change, insert, delete, or unchanged context).
#[derive(Debug, Clone)]
pub struct PatchDifference {
    /// The type of change.
    pub diff_type: DifferenceType,
    /// Starting line number in the source file (1-based).
    pub source_line_no: usize,
    /// Starting line number in the destination file (1-based).
    pub dest_line_no: usize,
    /// Destination line number adjusted for previously applied differences.
    pub tracking_dest_line_no: usize,
    /// Lines from the source file.
    pub source_lines: Vec<String>,
    /// Lines from the destination file.
    pub dest_lines: Vec<String>,
    /// Whether this difference has been applied (toggled by the patch engine).
    pub applied: bool,
    /// Whether source lines conflict with the actual file content.
    pub conflict: bool,
    /// Whether this difference has been modified since the last save.
    pub unsaved: bool,
}

impl View for PatchDifference {
    type V = DifferenceModel;

    open spec fn view(&self) -> DifferenceModel {
        DifferenceModel {
            diff_type: self.diff_type,
            source_line_no: self.source_line_no,
            dest_line_no: self.dest_line_no,
            tracking_dest_line_no: self.tracking_dest_line_no,
            source_lines: lines_view(self.source_lines@),
            dest_lines: lines_view(self.dest_lines@),
            applied: self.applied,
            conflict: self.conflict,
            unsaved: self.unsaved,
        }
    }
}

/// The optional string as an optional character sequence.
pub open spec fn opt_string_view(s: Option<String>) -> Option<Seq<char>> {
    match s {
        Some(t) => Some(t@),
        None => None,
    }
}

impl View for Hunk {
    type V = HunkModel;

    open spec fn view(&self) -> HunkModel {
        HunkModel {
            source_start: self.source_start,
            source_count: self.source_count,
            dest_start: self.dest_start,
            dest_count: self.dest_count,
            function_name: opt_string_view(self.function_name),
            hunk_type: self.hunk_type,
            differences: self.differences@.map_values(|d: PatchDifference| d@),
        }
    }
}

impl View for FilePatch {
    type V = FilePatchModel;

    open spec fn view(&self) -> FilePatchModel {
        FilePatchModel {
            source: self.source@,
            destination: self.destination@,
            source_timestamp: self.source_timestamp@,
            dest_timestamp: self.dest_timestamp@,
            source_revision: self.source_revision@,
            dest_revision: self.dest_revision@,
            hunks: self.hunks@.map_values(|h: Hunk| h@),
            applied_count: self.applied_count,
            blended: self.blended,
        }
    }
}

impl View for PatchSet {
    type V = PatchSetModel;

    open spec fn view(&self) -> PatchSetModel {
        PatchSetModel {
            files: self.files@.map_values(|f: FilePatch| f@),
            format: self.format,
            generator: self.generator,
        }
    }
}

/// A fresh difference of the given type and positions, with no lines.
pub open spec fn new_difference(
    diff_type: DifferenceType,
    source_line_no: usize,
    dest_line_no: usize,
) -> DifferenceModel {
    DifferenceModel {
        diff_type,
        source_line_no,
        dest_line_no,
        tracking_dest_line_no: dest_line_no,
        source_lines: Seq::empty(),
        dest_lines: Seq::empty(),
        applied: false,
        conflict: false,
        unsaved: false,
    }
}

/// A fresh normal hunk at the given starts, with no counts and differences.
pub open spec fn new_hunk(source_start: usize, dest_start: usize) -> HunkModel {
    HunkModel {
        source_start,
        source_count: 0,
        dest_start,
        dest_count: 0,
        function_name: None,
        hunk_type: HunkType::Normal,
        differences: Seq::empty(),
    }
}

/// A fresh file patch with empty names and no hunks.
pub open spec fn new_file_patch() -> FilePatchModel {
    FilePatchModel {
        source: Seq::empty(),
        destination: Seq::empty(),
        source_timestamp: Seq::empty(),
        dest_timestamp: Seq::empty(),
        source_revision: Seq::empty(),
        dest_revision: Seq::empty(),
        hunks: Seq::empty(),
        applied_count: 0,
        blended: false,
    }
}

/// Number of source lines a difference contributes to its hunk.
pub open spec fn source_span(d: DifferenceModel) -> nat {
    match d.diff_type {
        DifferenceType::Insert => 0,
        _ => d.source_lines.len(),
    }
}

/// Number of destination lines a difference contributes to its hunk.
pub open spec fn dest_span(d: DifferenceModel) -> nat {
    match d.diff_type {
        DifferenceType::Delete => 0,
        _ => d.dest_lines.len(),
    }
}

/// Sum of the source spans of the first `n` differences.
pub open spec fn source_total(diffs: Seq<DifferenceModel>, n: int) -> nat
    decreases n,
{
    if n <= 0 {
        0
    } else {
        source_total(diffs, n - 1) + source_span(diffs[n - 1])
    }
}

/// Sum of the destination spans of the first `n` differences.
pub open spec fn dest_total(diffs: Seq<DifferenceModel>, n: int) -> nat
    decreases n,
{
    if n <= 0 {
        0
    } else {
        dest_total(diffs, n - 1) + dest_span(diffs[n - 1])
    }
}

/// Positions `(hunk, difference)` of the non-unchanged differences among the
/// first `n` differences of hunk number `h`.
pub open spec fn hunk_change_positions(h: int, diffs: Seq<DifferenceModel>, n: int) -> Seq<
    (usize, usize),
>
    decreases n,
{
    if n <= 0 {
        Seq::empty()
    } else {
        let prev = hunk_change_positions(h, diffs, n - 1);
        if diffs[n - 1].diff_type != DifferenceType::Unchanged {
            prev.push((h as usize, (n - 1) as usize))
        } else {
            prev
        }
    }
}

/// Positions of the non-unchanged differences of the first `n` hunks, in order.
pub open spec fn change_positions_upto(hunks: Seq<HunkModel>, n: int) -> Seq<(usize, usize)>
    decreases n,
{
    if n <= 0 {
        Seq::empty()
    } else {
        change_positions_upto(hunks, n - 1) + hunk_change_positions(
            n - 1,
            hunks[n - 1].differences,
            hunks[n - 1].differences.len() as int,
        )
    }
}

/// Positions `(hunk, difference)` of all non-unchanged differences, in order.
pub open spec fn change_positions(hunks: Seq<HunkModel>) -> Seq<(usize, usize)> {
    change_positions_upto(hunks, hunks.len() as int)
}

/// Some difference of some hunk is marked unsaved.
pub open spec fn any_unsaved(hunks: Seq<HunkModel>) -> bool {
    exists|h: int, d: int|
        0 <= h < hunks.len() && 0 <= d < hunks[h].differences.len()
            && #[trigger] hunks[h].differences[d].unsaved
}

impl PatchSet {
    /// An empty patch set of unknown format and generator.
    pub fn new() -> (res: Self)
        ensures
            res@.files.len() == 0,
            res@.format == DiffFormat::Unknown,
            res@.generator == DiffGenerator::Unknown,
    {
        PatchSet { files: Vec::new(), format: DiffFormat::Unknown, generator: DiffGenerator::Unknown }
    }
}

impl FilePatch {
    /// An empty file patch.
    pub fn new() -> (res: Self)
        ensures
            res@ == new_file_patch(),
    {
        let res = FilePatch {
            source: String::new(),
            destination: String::new(),
            source_timestamp: String::new(),
            dest_timestamp: String::new(),
            source_revision: String::new(),
            dest_revision: String::new(),
            hunks: Vec::new(),
            applied_count: 0,
            blended: false,
        };
        assert(res@.hunks =~= Seq::<HunkModel>::empty());
        res
    }

    /// Positions `(hunk index, difference index)` of every difference that
    /// is not unchanged context, in order.
    pub fn difference_indices(&self) -> (res: Vec<(usize, usize)>)
        ensures
            res@ == change_positions(self@.hunks),
    {
        let mut indices: Vec<(usize, usize)> = Vec::new();
        let nh = self.hunks.len();
        for hi in 0..nh
            invariant
                nh == self.hunks@.len(),
                indices@ == change_positions_upto(self@.hunks, hi as int),
        {
            let hunk = &self.hunks[hi];
            let nd = hunk.differences.len();
            let ghost before = indices@;
            for di in 0..nd
                invariant
                    nd == hunk.differences@.len(),
                    hunk == self.hunks@[hi as int],
                    hi < nh,
                    nh == self.hunks@.len(),
                    indices@ == before + hunk_change_positions(
                        hi as int,
                        self@.hunks[hi as int].differences,
                        di as int,
                    ),
            {
                proof {
                    assert(self@.hunks[hi as int].differences[di as int]
                        == hunk.differences@[di as int]@);
                }
                if hunk.differences[di].diff_type != DifferenceType::Unchanged {
                    indices.push((hi, di));
                }
            }
        }
        indices
    }

    /// Total number of differences that are not unchanged context.
    pub fn difference_count(&self) -> (res: usize)
        ensures
            res == change_positions(self@.hunks).len(),
    {
        self.difference_indices().len()
    }

    /// Whether any difference is marked unsaved.
    pub fn has_unsaved_changes(&self) -> (res: bool)
        ensures
            res == any_unsaved(self@.hunks),
    {
        let nh = self.hunks.len();
        for hi in 0..nh
            invariant
                nh == self.hunks@.len(),
                forall|h: int, d: int|
                    0 <= h < hi && 0 <= d < self@.hunks[h].differences.len()
                        ==> !#[trigger] self@.hunks[h].differences[d].unsaved,
        {
            let nd = self.hunks[hi].differences.len();
            for di in 0..nd
                invariant
                    nh == self.hunks@.len(),
                    hi < nh,
                    nd == self@.hunks[hi as int].differences.len(),
                    forall|h: int, d: int|
                        0 <= h < hi && 0 <= d < self@.hunks[h].differences.len()
                            ==> !#[trigger] self@.hunks[h].differences[d].unsaved,
                    forall|d: int| 0 <= d < di ==> !#[trigger] self@.hunks[hi as int].differences[d].unsaved,
            {
                if self.hunks[hi].differences[di].unsaved {
                    assert(self@.hunks[hi as int].differences[di as int].unsaved);
                    return true;
                }
            }
        }
        false
    }
}

impl Hunk {
    /// An empty normal hunk starting at the given lines.
    pub fn new(source_start: usize, dest_start: usize) -> (res: Self)
        ensures
            res@ == new_hunk(source_start, dest_start),
    {
        let res = Hunk {
            source_start,
            source_count: 0,
            dest_start,
            dest_count: 0,
            function_name: None,
            hunk_type: HunkType::Normal,
            differences: Vec::new(),
        };
        assert(res@.differences =~= Seq::<DifferenceModel>::empty());
        res
    }

    /// Recompute `source_count` and `dest_count` from the differences:
    /// unchanged and changed blocks count on both sides, deletes only on the
    /// source side and inserts only on the destination side.
    pub fn recompute_counts(&mut self)
        requires
            source_total(old(self)@.differences, old(self)@.differences.len() as int)
                <= usize::MAX,
            dest_total(old(self)@.differences, old(self)@.differences.len() as int)
                <= usize::MAX,
        ensures
            final(self)@ == (HunkModel {
                source_count: source_total(old(self)@.differences, old(self)@.differences.len() as int) as usize,
                dest_count: dest_total(old(self)@.differences, old(self)@.differences.len() as int) as usize,
                ..old(self)@
            }),
    {
        let mut src: usize = 0;
        let mut dst: usize = 0;
        let n = self.differences.len();
        let ghost diffs = self@.differences;
        for i in 0..n
            invariant
                n == self.differences@.len(),
                diffs == self@.differences,
                src == source_total(diffs, i as int),
                dst == dest_total(diffs, i as int),
                source_total(diffs, n as int) <= usize::MAX,
                dest_total(diffs, n as int) <= usize::MAX,
        {
            proof {
                lemma_totals_monotone(diffs, i + 1, n as int);
                assert(diffs[i as int] == self.differences@[i as int]@);
            }
            let diff = &self.differences[i];
            match diff.diff_type {
                DifferenceType::Unchanged | DifferenceType::Change => {
                    src = src + diff.source_lines.len();
                    dst = dst + diff.dest_lines.len();
                },
                DifferenceType::Delete => {
                    src = src + diff.source_lines.len();
                },
                DifferenceType::Insert => {
                    dst = dst + diff.dest_lines.len();
                },
            }
        }
        self.source_count = src;
        self.dest_count = dst;
    }
}

/// Running totals never decrease.
pub proof fn lemma_totals_monotone(diffs: Seq<DifferenceModel>, i: int, j: int)
    requires
        0 <= i <= j,
    ensures
        source_total(diffs, i) <= source_total(diffs, j),
        dest_total(diffs, i) <= dest_total(diffs, j),
    decreases j - i,
{
    if i < j {
        lemma_totals_monotone(diffs, i, j - 1);
    }
}

impl PatchDifference {
    /// A difference of the given type and positions with no lines.
    pub fn new(diff_type: DifferenceType, source_line_no: usize, dest_line_no: usize) -> (res: Self)
        ensures
            res@ == new_difference(diff_type, source_line_no, dest_line_no),
    {
        let res = PatchDifference {
            diff_type,
            source_line_no,
            dest_line_no,
            tracking_dest_line_no: dest_line_no,
            source_lines: Vec::new(),
            dest_lines: Vec::new(),
            applied: false,
            conflict: false,
            unsaved: false,
        };
        assert(res@.source_lines =~= Seq::<Seq<char>>::empty());
        assert(res@.dest_lines =~= Seq::<Seq<char>>::empty());
        res
    }

    /// Number of source lines.
    pub fn source_line_count(&self) -> (res: usize)
        ensures
            res == self@.source_lines.len(),
    {
        self.source_lines.len()
    }

    /// Number of destination lines.
    pub fn dest_line_count(&self) -> (res: usize)
        ensures
            res == self@.dest_lines.len(),
    {
        self.dest_lines.len()
    }
}

/// A copy of a list of strings.
pub fn copy_lines(v: &Vec<String>) -> (res: Vec<String>)
    ensures
        lines_view(res@) == lines_view(v@),
{
    let mut res: Vec<String> = Vec::new();
    let n = v.len();
    for i in 0..n
        invariant
            n == v@.len(),
            res@.len() == i,
            forall|j: int| 0 <= j < i ==> #[trigger] res@[j]@ == v@[j]@,
    {
        res.push(v[i].clone());
    }
    assert(lines_view(res@) =~= lines_view(v@));
    res
}

impl PatchDifference {
    /// A copy of this difference.
    pub fn duplicate(&self) -> (res: Self)
        ensures
            res@ == self@,
    {
        PatchDifference {
            diff_type: self.diff_type,
            source_line_no: self.source_line_no,
            dest_line_no: self.dest_line_no,
            tracking_dest_line_no: self.tracking_dest_line_no,
            source_lines: copy_lines(&self.source_lines),
            dest_lines: copy_lines(&self.dest_lines),
            applied: self.applied,
            conflict: self.conflict,
            unsaved: self.unsaved,
        }
    }
}

impl Hunk {
    /// A copy of this hunk.
    pub fn duplicate(&self) -> (res: Self)
        ensures
            res@ == self@,
    {
        let mut diffs: Vec<PatchDifference> = Vec::new();
        let n = self.differences.len();
        for i in 0..n
            invariant
                n == self.differences@.len(),
                diffs@.len() == i,
                forall|j: int| 0 <= j < i ==> #[trigger] diffs@[j]@ == self.differences@[j]@,
        {
            diffs.push(self.differences[i].duplicate());
        }
        let name = match &self.function_name {
            Some(s) => Some(s.clone()),
            None => None,
        };
        let res = Hunk {
            source_start: self.source_start,
            source_count: self.source_count,
            dest_start: self.dest_start,
            dest_count: self.dest_count,
            function_name: name,
            hunk_type: self.hunk_type,
            differences: diffs,
        };
        assert(res@.differences =~= self@.differences);
        res
    }
}


/// Whether `p` names a difference of `hunks` that is not unchanged context.
pub open spec fn is_change_position(hunks: Seq<HunkModel>, p: (usize, usize)) -> bool {
    &&& (p.0 as int) < hunks.len()
    &&& (p.1 as int) < hunks[p.0 as int].differences.len()
    &&& hunks[p.0 as int].differences[p.1 as int].diff_type != DifferenceType::Unchanged
}

/// `a` comes before `b` in (hunk, difference) order.
pub open spec fn position_before(a: (usize, usize), b: (usize, usize)) -> bool {
    a.0 < b.0 || (a.0 == b.0 && a.1 < b.1)
}

/// The positions within one hunk: all of hunk `h`, below `n`, increasing,
/// and exactly the non-unchanged differences there.
proof fn lemma_hunk_positions(h: int, diffs: Seq<DifferenceModel>, n: int)
    requires
        0 <= h <= usize::MAX,
        0 <= n <= diffs.len() <= usize::MAX,
    ensures
        forall|i: int| 0 <= i < hunk_change_positions(h, diffs, n).len() ==> {
            &&& (#[trigger] hunk_change_positions(h, diffs, n)[i]).0 as int == h
            &&& (hunk_change_positions(h, diffs, n)[i].1 as int) < n
        },
        forall|i: int, j: int|
            0 <= i < j < hunk_change_positions(h, diffs, n).len() ==> (#[trigger] hunk_change_positions(h, diffs, n)[i]).1
                < (#[trigger] hunk_change_positions(h, diffs, n)[j]).1,
        forall|p: (usize, usize)|
            #[trigger] hunk_change_positions(h, diffs, n).contains(p) <==> (p.0 as int == h && (p.1 as int) < n
                && diffs[p.1 as int].diff_type != DifferenceType::Unchanged),
    decreases n,
{
    if n > 0 {
        lemma_hunk_positions(h, diffs, n - 1);
        let prev = hunk_change_positions(h, diffs, n - 1);
        let cur = hunk_change_positions(h, diffs, n);
        if diffs[n - 1].diff_type != DifferenceType::Unchanged {
            let x = (h as usize, (n - 1) as usize);
            assert(cur == prev.push(x));
            assert forall|p: (usize, usize)| cur.contains(p) <==> (p.0 as int == h && (p.1 as int) < n
                && diffs[p.1 as int].diff_type != DifferenceType::Unchanged) by {
                if cur.contains(p) {
                    let k = choose|k: int| 0 <= k < cur.len() && cur[k] == p;
                    if k < prev.len() {
                        assert(prev.contains(p));
                    }
                }
                if p.0 as int == h && (p.1 as int) < n && diffs[p.1 as int].diff_type != DifferenceType::Unchanged {
                    if (p.1 as int) < n - 1 {
                        assert(prev.contains(p));
                        let k = choose|k: int| 0 <= k < prev.len() && prev[k] == p;
                        assert(cur[k] == p);
                    } else {
                        assert(cur[prev.len() as int] == p);
                    }
                }
            }
        } else {
            assert forall|p: (usize, usize)| cur.contains(p) <==> (p.0 as int == h && (p.1 as int) < n
                && diffs[p.1 as int].diff_type != DifferenceType::Unchanged) by {
                if p.0 as int == h && (p.1 as int) < n && diffs[p.1 as int].diff_type != DifferenceType::Unchanged {
                    assert((p.1 as int) != n - 1);
                }
            }
        }
    }
}

/// The positions of the first `n` hunks: hunks below `n`, in increasing
/// order, and exactly the non-unchanged differences there.
proof fn lemma_positions_upto(hunks: Seq<HunkModel>, n: int)
    requires
        0 <= n <= hunks.len() <= usize::MAX,
        forall|h: int| 0 <= h < hunks.len() ==> (#[trigger] hunks[h]).differences.len() <= usize::MAX,
    ensures
        forall|i: int| 0 <= i < change_positions_upto(hunks, n).len() ==> ((#[trigger] change_positions_upto(hunks, n)[i]).0 as int) < n,
        forall|i: int, j: int|
            0 <= i < j < change_positions_upto(hunks, n).len() ==> position_before(
                #[trigger] change_positions_upto(hunks, n)[i],
                #[trigger] change_positions_upto(hunks, n)[j],
            ),
        forall|p: (usize, usize)|
            #[trigger] change_positions_upto(hunks, n).contains(p) <==> ((p.0 as int) < n && is_change_position(hunks, p)),
    decreases n,
{
    if n > 0 {
        lemma_positions_upto(hunks, n - 1);
        let d = hunks[n - 1].differences;
        lemma_hunk_positions(n - 1, d, d.len() as int);
        let prev = change_positions_upto(hunks, n - 1);
        let tail = hunk_change_positions(n - 1, d, d.len() as int);
        let cur = change_positions_upto(hunks, n);
        assert(cur == prev + tail);
        assert forall|i: int| 0 <= i < cur.len() implies ((#[trigger] cur[i]).0 as int) < n by {
            if i >= prev.len() {
                assert(cur[i] == tail[i - prev.len()]);
            }
        }
        assert forall|i: int, j: int| 0 <= i < j < cur.len() implies position_before(#[trigger] cur[i], #[trigger] cur[j]) by {
            if j < prev.len() {
                assert(cur[i] == prev[i] && cur[j] == prev[j]);
            } else if i >= prev.len() {
                assert(cur[i] == tail[i - prev.len()] && cur[j] == tail[j - prev.len()]);
            } else {
                assert(cur[i] == prev[i] && cur[j] == tail[j - prev.len()]);
            }
        }
        assert forall|p: (usize, usize)| cur.contains(p) <==> ((p.0 as int) < n && is_change_position(hunks, p)) by {
            if cur.contains(p) {
                let k = choose|k: int| 0 <= k < cur.len() && cur[k] == p;
                if k < prev.len() {
                    assert(prev[k] == p);
                    assert(prev.contains(p));
                } else {
                    assert(tail[k - prev.len()] == p);
                    assert(tail.contains(p));
                }
            }
            if (p.0 as int) < n && is_change_position(hunks, p) {
                if (p.0 as int) < n - 1 {
                    assert(prev.contains(p));
                    let k = choose|k: int| 0 <= k < prev.len() && prev[k] == p;
                    assert(cur[k] == p);
                } else {
                    assert(tail.contains(p));
                    let k = choose|k: int| 0 <= k < tail.len() && tail[k] == p;
                    assert(cur[prev.len() + k] == p);
                }
            }
        }
    }
}

/// The positions of the differences of a patch are in increasing (hunk,
/// difference) order, and a position is among them exactly when it names a
/// difference that is not unchanged context.
pub proof fn lemma_change_positions(hunks: Seq<HunkModel>)
    requires
        hunks.len() <= usize::MAX,
        forall|h: int| 0 <= h < hunks.len() ==> (#[trigger] hunks[h]).differences.len() <= usize::MAX,
    ensures
        forall|i: int, j: int|
            0 <= i < j < change_positions(hunks).len() ==> position_before(
                #[trigger] change_positions(hunks)[i],
                #[trigger] change_positions(hunks)[j],
            ),
        forall|p: (usize, usize)| #[trigger] change_positions(hunks).contains(p) <==> is_change_position(hunks, p),
{
    lemma_positions_upto(hunks, hunks.len() as int);
}

} // verus!
