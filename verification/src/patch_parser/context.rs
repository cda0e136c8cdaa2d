//! The context diff format: `*** source` / `--- destination` headers, then
//! hunks that start with a row of fifteen asterisks and hold a source
//! section (`*** a,b ****`) and a destination section (`--- c,d ----`).

use super::{
    files_view, function_name_of, group_name, group_num, group_text, hunks_view, diffs_view,
    lemma_diffs_push, lemma_files_push, lemma_hunks_push, lemma_lines_push, lines_model, num_or,
    span,
};
use super::normal::text_of;
use crate::error::RCompareError;
use crate::patch_types::{
    lines_view, new_difference, new_file_patch, DifferenceModel, DifferenceType, FilePatch,
    FilePatchModel, Hunk, HunkModel, HunkType, PatchDifference,
};
use crate::regex_match::{group_of, regex_captures, regex_captures_of};
use crate::text::{chars_of, slice_chars, string_from_chars, string_push};
use vstd::prelude::*;

verus! {

/// Source file header: `*** path[\ttimestamp]`.
pub const FILE_HEADER_SRC: &'static str = r"^\*\*\* ([^\t]+)(?:\t(.*))?$";

/// Destination file header: `--- path[\ttimestamp]`.
pub const FILE_HEADER_DST: &'static str = r"^--- ([^\t]+)(?:\t(.*))?$";

/// Hunk separator: fifteen asterisks, optionally followed by a function name.
pub const HUNK_SEPARATOR: &'static str = r"^\*{15}\s?(.*)$";

/// Source range: `*** start[,end] ***`.
pub const SRC_RANGE: &'static str = r"^\*\*\* (\d+)(?:,(\d+))? \*\*\*\*?$";

/// Destination range: `--- start[,end] ----`.
pub const DST_RANGE: &'static str = r"^--- (\d+)(?:,(\d+))? ----?$";

/// Kind of a line in a section of a context hunk.
#[derive(Debug, Clone, Copy, PartialEq, Eq, Structural)]
pub enum ContextKind {
    /// Context line (two spaces).
    Context,
    /// Added line (`+ `).
    Added,
    /// Removed line (`- `).
    Removed,
    /// Changed line (`! `).
    Changed,
}

/// A tagged line of a section: its kind and its text after the marker.
pub struct ContextLine {
    pub kind: ContextKind,
    pub text: String,
}

/// The kind a two-character marker gives a line, if it has one.
pub open spec fn marker_kind(line: Seq<char>) -> Option<ContextKind> {
    if line.len() >= 2 && line[1] == ' ' {
        if line[0] == ' ' {
            Some(ContextKind::Context)
        } else if line[0] == '-' {
            Some(ContextKind::Removed)
        } else if line[0] == '+' {
            Some(ContextKind::Added)
        } else if line[0] == '!' {
            Some(ContextKind::Changed)
        } else {
            None
        }
    } else {
        None
    }
}

/// The marked lines from `i` on, up to the first unmarked line, and the
/// index of that line.
pub open spec fn section_body(l: Seq<Seq<char>>, i: int) -> (Seq<(ContextKind, Seq<char>)>, int)
    decreases l.len() - i,
{
    if i < 0 || i >= l.len() {
        (Seq::empty(), i)
    } else {
        match marker_kind(l[i]) {
            Some(k) => {
                let r = section_body(l, i + 1);
                (seq![(k, l[i].subrange(2, l[i].len() as int))] + r.0, r.1)
            },
            None => (Seq::empty(), i),
        }
    }
}

/// A section body ends within the input, at or after where it starts.
pub proof fn lemma_section_body_end(l: Seq<Seq<char>>, i: int)
    requires
        0 <= i <= l.len(),
    ensures
        i <= section_body(l, i).1 <= l.len(),
    decreases l.len() - i,
{
    if i < l.len() && marker_kind(l[i]) is Some {
        lemma_section_body_end(l, i + 1);
    }
}

/// A section at line `i` whose range line matches `pattern`: its start, its
/// end (the start when absent), its marked lines and the index after them;
/// `(0, 0, [], i)` when line `i` is not such a range line.
pub open spec fn section(l: Seq<Seq<char>>, i: int, pattern: Seq<char>) -> (
    usize,
    usize,
    Seq<(ContextKind, Seq<char>)>,
    int,
) {
    if 0 <= i < l.len() {
        match regex_captures_of(pattern, l[i]) {
            Some(c) => {
                let start = num_or(group_of(c, 1), 0);
                let b = section_body(l, i + 1);
                (start, num_or(group_of(c, 2), start), b.0, b.1)
            },
            None => (0, 0, Seq::empty(), i),
        }
    } else {
        (0, 0, Seq::empty(), i)
    }
}

/// A section ends within the input, at or after where it starts.
pub proof fn lemma_section_end(l: Seq<Seq<char>>, i: int, pattern: Seq<char>)
    requires
        0 <= i <= l.len(),
    ensures
        i <= section(l, i, pattern).3 <= l.len(),
{
    if i < l.len() && regex_captures_of(pattern, l[i]) is Some {
        lemma_section_body_end(l, i + 1);
    }
}

/// Index of the first line at or after `i` that is not of kind `k`.
pub open spec fn run_end(s: Seq<(ContextKind, Seq<char>)>, i: int, k: ContextKind) -> int
    decreases s.len() - i,
{
    if 0 <= i < s.len() && s[i].0 == k {
        run_end(s, i + 1, k)
    } else {
        i
    }
}

/// A run ends within the lines, at or after where it starts, and past its
/// start when the first line is of its kind.
pub proof fn lemma_run_end(s: Seq<(ContextKind, Seq<char>)>, i: int, k: ContextKind)
    requires
        0 <= i <= s.len(),
    ensures
        i <= run_end(s, i, k) <= s.len(),
        i < s.len() && s[i].0 == k ==> i < run_end(s, i, k),
        forall|m: int| i <= m < run_end(s, i, k) ==> s[m].0 == k,
    decreases s.len() - i,
{
    if i < s.len() && s[i].0 == k {
        lemma_run_end(s, i + 1, k);
    }
}

/// The texts of lines `i..j`, each with a newline added.
pub open spec fn run_texts(s: Seq<(ContextKind, Seq<char>)>, i: int, j: int) -> Seq<Seq<char>> {
    Seq::new((j - i) as nat, |m: int| s[i + m].1.push('\n'))
}

/// A context difference holding line `t` on both sides.
pub open spec fn unchanged_line(t: Seq<char>, sno: usize, dno: usize) -> DifferenceModel {
    DifferenceModel {
        source_lines: seq![t.push('\n')],
        dest_lines: seq![t.push('\n')],
        ..new_difference(DifferenceType::Unchanged, sno, dno)
    }
}

/// The differences of a hunk from its source lines `src` (from `si` on) and
/// destination lines `dst` (from `di` on), at source line `sno` and
/// destination line `dno`. A source context line is an unchanged difference
/// and passes a destination context line; a run of removed lines is a
/// delete; a run of added lines an insert; a run of changed lines in the
/// source with the run of changed lines in the destination one change; a
/// destination context line left over is an unchanged difference; any other
/// line is skipped on both sides.
pub open spec fn merge_from(
    src: Seq<(ContextKind, Seq<char>)>,
    dst: Seq<(ContextKind, Seq<char>)>,
    si: int,
    di: int,
    sno: usize,
    dno: usize,
) -> Seq<DifferenceModel>
    decreases (src.len() - si) + (dst.len() - di),
{
    if !(0 <= si <= src.len() && 0 <= di <= dst.len()) || (si == src.len() && di == dst.len()) {
        Seq::empty()
    } else if si < src.len() && src[si].0 == ContextKind::Context {
        let di2 = if di < dst.len() && dst[di].0 == ContextKind::Context {
            di + 1
        } else {
            di
        };
        seq![unchanged_line(src[si].1, sno, dno)] + merge_from(
            src,
            dst,
            si + 1,
            di2,
            sno.wrapping_add(1),
            dno.wrapping_add(1),
        )
    } else if si < src.len() && src[si].0 == ContextKind::Removed {
        let j = run_end(src, si, ContextKind::Removed);
        proof {
            lemma_run_end(src, si, ContextKind::Removed);
        }
        let d = DifferenceModel {
            source_lines: run_texts(src, si, j),
            ..new_difference(DifferenceType::Delete, sno, dno)
        };
        seq![d] + merge_from(src, dst, j, di, sno.wrapping_add((j - si) as usize), dno)
    } else if di < dst.len() && dst[di].0 == ContextKind::Added {
        let k = run_end(dst, di, ContextKind::Added);
        proof {
            lemma_run_end(dst, di, ContextKind::Added);
        }
        let d = DifferenceModel {
            dest_lines: run_texts(dst, di, k),
            ..new_difference(DifferenceType::Insert, sno, dno)
        };
        seq![d] + merge_from(src, dst, si, k, sno, dno.wrapping_add((k - di) as usize))
    } else if si < src.len() && src[si].0 == ContextKind::Changed {
        let j = run_end(src, si, ContextKind::Changed);
        let k = run_end(dst, di, ContextKind::Changed);
        proof {
            lemma_run_end(src, si, ContextKind::Changed);
            lemma_run_end(dst, di, ContextKind::Changed);
        }
        let d = DifferenceModel {
            source_lines: run_texts(src, si, j),
            dest_lines: run_texts(dst, di, k),
            ..new_difference(DifferenceType::Change, sno, dno)
        };
        seq![d] + merge_from(
            src,
            dst,
            j,
            k,
            sno.wrapping_add((j - si) as usize),
            dno.wrapping_add((k - di) as usize),
        )
    } else if di < dst.len() && dst[di].0 == ContextKind::Context {
        seq![unchanged_line(dst[di].1, sno, dno)] + merge_from(
            src,
            dst,
            si,
            di + 1,
            sno.wrapping_add(1),
            dno.wrapping_add(1),
        )
    } else {
        merge_from(
            src,
            dst,
            if si < src.len() {
                si + 1
            } else {
                si
            },
            if di < dst.len() {
                di + 1
            } else {
                di
            },
            sno,
            dno,
        )
    }
}

/// A line count from a start and an end line: `end - start + 1` (wrapping),
/// or 0 when the end lies before the start.
pub open spec fn range_count(start: usize, end: usize) -> usize {
    if end >= start {
        span(start, end)
    } else {
        0
    }
}

/// The hunk whose separator is line `j` (with captures `c`), and the index
/// of the first line after it.
pub open spec fn context_hunk_at(l: Seq<Seq<char>>, j: int, c: Seq<Option<Seq<char>>>) -> (
    HunkModel,
    int,
) {
    let s = section(l, j + 1, SRC_RANGE@);
    let d = section(l, s.3, DST_RANGE@);
    (
        HunkModel {
            source_start: s.0,
            source_count: range_count(s.0, s.1),
            dest_start: d.0,
            dest_count: range_count(d.0, d.1),
            function_name: function_name_of(c, 1),
            hunk_type: HunkType::Normal,
            differences: merge_from(s.2, d.2, 0, 0, s.0, d.0),
        },
        d.3,
    )
}

/// A hunk ends within the input, after its separator.
pub proof fn lemma_context_hunk_end(l: Seq<Seq<char>>, j: int, c: Seq<Option<Seq<char>>>)
    requires
        0 <= j < l.len(),
    ensures
        j < context_hunk_at(l, j, c).1 <= l.len(),
{
    lemma_section_end(l, j + 1, SRC_RANGE@);
    lemma_section_end(l, section(l, j + 1, SRC_RANGE@).3, DST_RANGE@);
}

/// The hunks of one file patch from line `j` on, and the index where they
/// end: a separator starts a hunk, a source file header ends the list, any
/// other line is skipped.
pub open spec fn context_hunks_from(l: Seq<Seq<char>>, j: int) -> (Seq<HunkModel>, int)
    decreases l.len() - j,
{
    if j < 0 || j >= l.len() {
        (Seq::empty(), j)
    } else {
        match regex_captures_of(HUNK_SEPARATOR@, l[j]) {
            Some(c) => {
                let h = context_hunk_at(l, j, c);
                proof {
                    lemma_context_hunk_end(l, j, c);
                }
                let rest = context_hunks_from(l, h.1);
                (seq![h.0] + rest.0, rest.1)
            },
            None => if regex_captures_of(FILE_HEADER_SRC@, l[j]) is Some {
                (Seq::empty(), j)
            } else {
                context_hunks_from(l, j + 1)
            },
        }
    }
}

/// The hunk list ends at or after where it starts, within the input.
pub proof fn lemma_context_hunks_end(l: Seq<Seq<char>>, j: int)
    requires
        0 <= j <= l.len(),
    ensures
        j <= context_hunks_from(l, j).1 <= l.len(),
    decreases l.len() - j,
{
    if j < l.len() {
        match regex_captures_of(HUNK_SEPARATOR@, l[j]) {
            Some(c) => {
                lemma_context_hunk_end(l, j, c);
                lemma_context_hunks_end(l, context_hunk_at(l, j, c).1);
            },
            None => if regex_captures_of(FILE_HEADER_SRC@, l[j]) is None {
                lemma_context_hunks_end(l, j + 1);
            },
        }
    }
}

/// The file patch of a `***` header with captures `c1` and a `---` header
/// with captures `c2`, holding `hunks`.
pub open spec fn context_file(
    c1: Seq<Option<Seq<char>>>,
    c2: Seq<Option<Seq<char>>>,
    hunks: Seq<HunkModel>,
) -> FilePatchModel {
    FilePatchModel {
        source: text_of(c1, 1),
        source_timestamp: text_of(c1, 2),
        destination: text_of(c2, 1),
        dest_timestamp: text_of(c2, 2),
        hunks,
        ..new_file_patch()
    }
}

/// The file patches of context diff lines from `i` on: a `***` header
/// directly followed by a `---` header opens a file patch that holds the
/// hunks after it; other lines are skipped.
pub open spec fn context_from(l: Seq<Seq<char>>, i: int) -> Seq<FilePatchModel>
    decreases l.len() - i,
{
    if i < 0 || i >= l.len() {
        Seq::empty()
    } else {
        match regex_captures_of(FILE_HEADER_SRC@, l[i]) {
            Some(c1) => if i + 1 >= l.len() {
                context_from(l, i + 1)
            } else {
                match regex_captures_of(FILE_HEADER_DST@, l[i + 1]) {
                    Some(c2) => {
                        let h = context_hunks_from(l, i + 2);
                        proof {
                            lemma_context_hunks_end(l, i + 2);
                        }
                        seq![context_file(c1, c2, h.0)] + context_from(l, h.1)
                    },
                    None => context_from(l, i + 1),
                }
            },
            None => context_from(l, i + 1),
        }
    }
}

/// The model of a list of tagged lines.
pub open spec fn context_lines_view(v: Seq<ContextLine>) -> Seq<(ContextKind, Seq<char>)> {
    v.map_values(|c: ContextLine| (c.kind, c.text@))
}

/// The kind of a line's two-character marker, if it has one.
fn line_marker(cs: &Vec<char>) -> (res: Option<ContextKind>)
    ensures
        res == marker_kind(cs@),
{
    if cs.len() < 2 || cs[1] != ' ' {
        None
    } else if cs[0] == ' ' {
        Some(ContextKind::Context)
    } else if cs[0] == '-' {
        Some(ContextKind::Removed)
    } else if cs[0] == '+' {
        Some(ContextKind::Added)
    } else if cs[0] == '!' {
        Some(ContextKind::Changed)
    } else {
        None
    }
}

/// The marked lines of a section starting at line `i0`, and the index of
/// the first unmarked line.
fn collect_context_body(lines: &[&str], i0: usize) -> (res: (Vec<ContextLine>, usize))
    requires
        i0 <= lines@.len(),
    ensures
        (context_lines_view(res.0@), res.1 as int) == section_body(lines_model(lines@), i0 as int),
{
    let ghost l = lines_model(lines@);
    let n = lines.len();
    let mut body: Vec<ContextLine> = Vec::new();
    let mut i = i0;
    assert(context_lines_view(body@) =~= Seq::<(ContextKind, Seq<char>)>::empty());
    loop
        invariant
            n == lines@.len(),
            l == lines_model(lines@),
            i0 <= i <= n,
            (context_lines_view(body@) + section_body(l, i as int).0, section_body(l, i as int).1)
                == section_body(l, i0 as int),
        ensures
            (context_lines_view(body@), i as int) == section_body(l, i0 as int),
        decreases n - i,
    {
        if i >= n {
            assert(context_lines_view(body@) + Seq::<(ContextKind, Seq<char>)>::empty()
                =~= context_lines_view(body@));
            break;
        }
        let cs = chars_of(lines[i]);
        assert(l[i as int] == cs@);
        match line_marker(&cs) {
            Some(kind) => {
                let rest = slice_chars(cs.as_slice(), 2, cs.len());
                let line = ContextLine { kind, text: string_from_chars(rest.as_slice()) };
                proof {
                    assert(context_lines_view(body@.push(line)) =~= context_lines_view(body@).push(
                        (kind, rest@),
                    ));
                    assert(context_lines_view(body@.push(line)) + section_body(l, i + 1).0
                        =~= context_lines_view(body@) + section_body(l, i as int).0);
                }
                body.push(line);
                i += 1;
            },
            None => {
                assert(context_lines_view(body@) + Seq::<(ContextKind, Seq<char>)>::empty()
                    =~= context_lines_view(body@));
                break;
            },
        }
    }
    (body, i)
}

/// The section at line `i` whose range line matches `pattern`.
fn parse_section(lines: &[&str], i: usize, pattern: &str) -> (res: (usize, usize, Vec<ContextLine>, usize))
    requires
        i <= lines@.len(),
    ensures
        (res.0, res.1, context_lines_view(res.2@), res.3 as int) == section(
            lines_model(lines@),
            i as int,
            pattern@,
        ),
{
    if i < lines.len() {
        match regex_captures(pattern, lines[i]) {
            Some(cap) => {
                let start = group_num(&cap, 1, 0);
                let end = group_num(&cap, 2, start);
                let (body, next) = collect_context_body(lines, i + 1);
                (start, end, body, next)
            },
            None => {
                let body: Vec<ContextLine> = Vec::new();
                assert(context_lines_view(body@) =~= Seq::<(ContextKind, Seq<char>)>::empty());
                (0, 0, body, i)
            },
        }
    } else {
        let body: Vec<ContextLine> = Vec::new();
        assert(context_lines_view(body@) =~= Seq::<(ContextKind, Seq<char>)>::empty());
        (0, 0, body, i)
    }
}

/// The run of lines of kind `k` from `i` on: their texts with a newline
/// added, and the index after the run.
fn take_run(s: &[ContextLine], i: usize, k: ContextKind) -> (res: (Vec<String>, usize))
    requires
        i <= s@.len(),
    ensures
        res.1 == run_end(context_lines_view(s@), i as int, k),
        lines_view(res.0@) == run_texts(context_lines_view(s@), i as int, res.1 as int),
{
    let ghost m = context_lines_view(s@);
    let n = s.len();
    let mut out: Vec<String> = Vec::new();
    let mut j = i;
    assert(lines_view(out@) =~= run_texts(m, i as int, i as int));
    while j < n && s[j].kind == k
        invariant
            n == s@.len(),
            m == context_lines_view(s@),
            i <= j <= n,
            run_end(m, i as int, k) == run_end(m, j as int, k),
            lines_view(out@) == run_texts(m, i as int, j as int),
        decreases n - j,
    {
        let mut t = string_from_chars(chars_of(s[j].text.as_str()).as_slice());
        string_push(&mut t, '\n');
        proof {
            lemma_lines_push(out@, t);
        }
        out.push(t);
        assert(lines_view(out@) =~= run_texts(m, i as int, j + 1));
        j += 1;
    }
    (out, j)
}

/// A context difference holding `text` on both sides.
fn unchanged_diff(text: &String, sno: usize, dno: usize) -> (res: PatchDifference)
    ensures
        res@ == unchanged_line(text@, sno, dno),
{
    let mut d = PatchDifference::new(DifferenceType::Unchanged, sno, dno);
    let mut t = string_from_chars(chars_of(text.as_str()).as_slice());
    string_push(&mut t, '\n');
    let t2 = string_from_chars(chars_of(t.as_str()).as_slice());
    proof {
        lemma_lines_push(d.source_lines@, t);
        lemma_lines_push(d.dest_lines@, t2);
    }
    d.source_lines.push(t);
    d.dest_lines.push(t2);
    assert(d@.source_lines =~= seq![text@.push('\n')]);
    assert(d@.dest_lines =~= seq![text@.push('\n')]);
    d
}

/// The differences of a hunk from its source and destination sections.
fn merge_context_diffs(
    src_lines: &[ContextLine],
    dst_lines: &[ContextLine],
    src_start: usize,
    dst_start: usize,
) -> (res: Vec<PatchDifference>)
    ensures
        diffs_view(res@) == merge_from(
            context_lines_view(src_lines@),
            context_lines_view(dst_lines@),
            0,
            0,
            src_start,
            dst_start,
        ),
{
    let ghost sm = context_lines_view(src_lines@);
    let ghost dm = context_lines_view(dst_lines@);
    let ns = src_lines.len();
    let nd = dst_lines.len();
    let mut out: Vec<PatchDifference> = Vec::new();
    let mut si: usize = 0;
    let mut di: usize = 0;
    let mut sno = src_start;
    let mut dno = dst_start;
    assert(diffs_view(out@) =~= Seq::<DifferenceModel>::empty());
    while si < ns || di < nd
        invariant
            ns == src_lines@.len(),
            nd == dst_lines@.len(),
            sm == context_lines_view(src_lines@),
            dm == context_lines_view(dst_lines@),
            si <= ns,
            di <= nd,
            diffs_view(out@) + merge_from(sm, dm, si as int, di as int, sno, dno) == merge_from(
                sm,
                dm,
                0,
                0,
                src_start,
                dst_start,
            ),
        decreases (ns - si) + (nd - di),
    {
        let ghost before = diffs_view(out@);
        let ghost (si0, di0, sno0, dno0) = (si as int, di as int, sno, dno);
        if si < ns && src_lines[si].kind == ContextKind::Context {
            let d = unchanged_diff(&src_lines[si].text, sno, dno);
            proof {
                lemma_diffs_push(out@, d);
            }
            out.push(d);
            si += 1;
            if di < nd && dst_lines[di].kind == ContextKind::Context {
                di += 1;
            }
            sno = sno.wrapping_add(1);
            dno = dno.wrapping_add(1);
        } else if si < ns && src_lines[si].kind == ContextKind::Removed {
            let (texts, j) = take_run(src_lines, si, ContextKind::Removed);
            proof {
                lemma_run_end(sm, si as int, ContextKind::Removed);
            }
            let mut d = PatchDifference::new(DifferenceType::Delete, sno, dno);
            d.source_lines = texts;
            proof {
                lemma_diffs_push(out@, d);
            }
            out.push(d);
            sno = sno.wrapping_add(j - si);
            si = j;
        } else if di < nd && dst_lines[di].kind == ContextKind::Added {
            let (texts, k) = take_run(dst_lines, di, ContextKind::Added);
            proof {
                lemma_run_end(dm, di as int, ContextKind::Added);
            }
            let mut d = PatchDifference::new(DifferenceType::Insert, sno, dno);
            d.dest_lines = texts;
            proof {
                lemma_diffs_push(out@, d);
            }
            out.push(d);
            dno = dno.wrapping_add(k - di);
            di = k;
        } else if si < ns && src_lines[si].kind == ContextKind::Changed {
            let (stexts, j) = take_run(src_lines, si, ContextKind::Changed);
            let (dtexts, k) = take_run(dst_lines, di, ContextKind::Changed);
            proof {
                lemma_run_end(sm, si as int, ContextKind::Changed);
                lemma_run_end(dm, di as int, ContextKind::Changed);
            }
            let mut d = PatchDifference::new(DifferenceType::Change, sno, dno);
            d.source_lines = stexts;
            d.dest_lines = dtexts;
            proof {
                lemma_diffs_push(out@, d);
            }
            out.push(d);
            sno = sno.wrapping_add(j - si);
            dno = dno.wrapping_add(k - di);
            si = j;
            di = k;
        } else if di < nd && dst_lines[di].kind == ContextKind::Context {
            let d = unchanged_diff(&dst_lines[di].text, sno, dno);
            proof {
                lemma_diffs_push(out@, d);
            }
            out.push(d);
            di += 1;
            sno = sno.wrapping_add(1);
            dno = dno.wrapping_add(1);
        } else {
            if si < ns {
                si += 1;
            }
            if di < nd {
                di += 1;
            }
        }
        proof {
            assert(diffs_view(out@) + merge_from(sm, dm, si as int, di as int, sno, dno) =~= before
                + merge_from(sm, dm, si0, di0, sno0, dno0));
        }
    }
    assert(diffs_view(out@) + Seq::<DifferenceModel>::empty() =~= diffs_view(out@));
    out
}

/// The hunks of one file patch starting at line `j0`.
fn parse_context_hunks(lines: &[&str], j0: usize) -> (res: (Vec<Hunk>, usize))
    requires
        j0 <= lines@.len(),
    ensures
        (hunks_view(res.0@), res.1 as int) == context_hunks_from(lines_model(lines@), j0 as int),
{
    let ghost l = lines_model(lines@);
    let n = lines.len();
    let mut hunks: Vec<Hunk> = Vec::new();
    let mut j = j0;
    assert(hunks_view(hunks@) =~= Seq::<HunkModel>::empty());
    loop
        invariant
            n == lines@.len(),
            l == lines_model(lines@),
            j0 <= j <= n,
            (hunks_view(hunks@) + context_hunks_from(l, j as int).0, context_hunks_from(
                l,
                j as int,
            ).1) == context_hunks_from(l, j0 as int),
        ensures
            (hunks_view(hunks@), j as int) == context_hunks_from(l, j0 as int),
        decreases n - j,
    {
        if j >= n {
            assert(hunks_view(hunks@) + Seq::<HunkModel>::empty() =~= hunks_view(hunks@));
            break;
        }
        if let Some(cap) = regex_captures(HUNK_SEPARATOR, lines[j]) {
            let func = group_name(&cap, 1);
            let ghost c = super::groups(cap);
            let (src_start, src_end, src_body, i1) = parse_section(lines, j + 1, SRC_RANGE);
            proof {
                lemma_section_end(l, j + 1, SRC_RANGE@);
            }
            let (dst_start, dst_end, dst_body, i2) = parse_section(lines, i1, DST_RANGE);
            proof {
                lemma_section_end(l, i1 as int, DST_RANGE@);
            }
            let src_count = if src_end >= src_start {
                src_end.wrapping_sub(src_start).wrapping_add(1)
            } else {
                0
            };
            let dst_count = if dst_end >= dst_start {
                dst_end.wrapping_sub(dst_start).wrapping_add(1)
            } else {
                0
            };
            let diffs = merge_context_diffs(src_body.as_slice(), dst_body.as_slice(), src_start, dst_start);
            let hunk = Hunk {
                source_start: src_start,
                source_count: src_count,
                dest_start: dst_start,
                dest_count: dst_count,
                function_name: func,
                hunk_type: HunkType::Normal,
                differences: diffs,
            };
            proof {
                assert(hunk@ == context_hunk_at(l, j as int, c).0);
                lemma_hunks_push(hunks@, hunk);
                assert(hunks_view(hunks@.push(hunk)) + context_hunks_from(l, i2 as int).0
                    =~= hunks_view(hunks@) + context_hunks_from(l, j as int).0);
            }
            hunks.push(hunk);
            j = i2;
        } else if regex_captures(FILE_HEADER_SRC, lines[j]).is_some() {
            assert(hunks_view(hunks@) + Seq::<HunkModel>::empty() =~= hunks_view(hunks@));
            break;
        } else {
            j += 1;
        }
    }
    (hunks, j)
}

/// Parse context diff format into a list of file patches, one per file pair.
pub fn parse_context(lines: &[&str]) -> (res: Result<Vec<FilePatch>, RCompareError>)
    ensures
        res matches Ok(v) && files_view(v@) == context_from(lines_model(lines@), 0),
{
    let ghost l = lines_model(lines@);
    let n = lines.len();
    let mut file_patches: Vec<FilePatch> = Vec::new();
    let mut i: usize = 0;
    assert(files_view(file_patches@) =~= Seq::<FilePatchModel>::empty());
    while i < n
        invariant
            n == lines@.len(),
            l == lines_model(lines@),
            i <= n,
            files_view(file_patches@) + context_from(l, i as int) == context_from(l, 0),
        decreases n - i,
    {
        if let Some(cap1) = regex_captures(FILE_HEADER_SRC, lines[i]) {
            if i + 1 >= n {
                i += 1;
                continue;
            }
            if let Some(cap2) = regex_captures(FILE_HEADER_DST, lines[i + 1]) {
                let mut fp = FilePatch::new();
                fp.source = string_from_chars(group_text(&cap1, 1).as_slice());
                fp.source_timestamp = string_from_chars(group_text(&cap1, 2).as_slice());
                fp.destination = string_from_chars(group_text(&cap2, 1).as_slice());
                fp.dest_timestamp = string_from_chars(group_text(&cap2, 2).as_slice());
                let (hunks, j) = parse_context_hunks(lines, i + 2);
                fp.hunks = hunks;
                proof {
                    lemma_context_hunks_end(l, i + 2);
                    assert(fp@ == context_file(
                        super::groups(cap1),
                        super::groups(cap2),
                        context_hunks_from(l, i + 2).0,
                    ));
                    lemma_files_push(file_patches@, fp);
                    assert(files_view(file_patches@.push(fp)) + context_from(l, j as int)
                        =~= files_view(file_patches@) + context_from(l, i as int));
                }
                file_patches.push(fp);
                i = j;
            } else {
                i += 1;
            }
        } else {
            i += 1;
        }
    }
    assert(files_view(file_patches@) + Seq::<FilePatchModel>::empty() =~= files_view(file_patches@));
    Ok(file_patches)
}

} // verus!
