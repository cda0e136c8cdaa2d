//! The unified diff format: `--- source` / `+++ destination` headers, then
//! hunks that start with `@@ -a,b +c,d @@` and hold ` `, `-` and `+` lines.

use super::{
    files_view, function_name_of, group_name, group_num, group_text, hunks_view, diffs_view, lemma_diffs_push, lemma_files_push,
    lemma_hunks_push, lemma_lines_push, lines_model, num_or,
};
use super::normal::text_of;
use crate::error::RCompareError;
use crate::patch_types::{new_difference, new_file_patch, DifferenceModel, DifferenceType, FilePatch, FilePatchModel, Hunk, HunkModel, HunkType, PatchDifference};
use crate::regex_match::{group_of, regex_captures, regex_captures_of};
use crate::text::{chars_of, slice_chars, string_from_chars, string_push};
use vstd::prelude::*;

verus! {

/// Source file header: `--- path[\ttimestamp[\trevision]]`.
pub const HEADER1: &'static str = r"^--- ([^\t]+)(?:\t([^\t]+)(?:\t(.*))?)?$";

/// Destination file header: `+++ path[\ttimestamp[\trevision]]`.
pub const HEADER2: &'static str = r"^\+\+\+ ([^\t]+)(?:\t([^\t]+)(?:\t(.*))?)?$";

/// Hunk header: `@@ -a[,b] +c[,d] @@[function]`.
pub const HUNK_HEADER: &'static str = r"^@@ -(\d+)(?:,(\d+))? \+(\d+)(?:,(\d+))? @@(.*)$";

/// The body text of a hunk line: without its marker, with a newline added.
pub open spec fn body_text(line: Seq<char>) -> Seq<char> {
    line.drop_first().push('\n')
}

/// The differences collected so far with the pending one appended.
pub open spec fn flushed(
    acc: Seq<DifferenceModel>,
    cur: Option<(DifferenceModel, char)>,
) -> Seq<DifferenceModel> {
    match cur {
        Some((d, _)) => acc.push(d),
        None => acc,
    }
}

/// `d` with one more source line.
pub open spec fn with_source_line(d: DifferenceModel, t: Seq<char>) -> DifferenceModel {
    DifferenceModel { source_lines: d.source_lines.push(t), ..d }
}

/// `d` with one more destination line.
pub open spec fn with_dest_line(d: DifferenceModel, t: Seq<char>) -> DifferenceModel {
    DifferenceModel { dest_lines: d.dest_lines.push(t), ..d }
}

/// Whether a line ends a hunk body: the input is empty, or it is a file or
/// hunk header.
pub open spec fn ends_body(line: Seq<char>) -> bool {
    line.len() == 0 || regex_captures_of(HEADER1@, line) is Some || regex_captures_of(
        HUNK_HEADER@,
        line,
    ) is Some
}

/// The differences of a hunk body from line `k` on, given the current
/// source and destination line numbers, the pending difference with the
/// marker of its last line, and the differences already closed; with the
/// index of the first line after the body. Each context line is an
/// unchanged difference of its own; a run of `-` lines is a delete, a run of
/// `+` lines an insert, and a run of `-` lines followed by `+` lines one
/// change. The body ends at an empty line, a header, a line with another
/// marker, or the end of input.
pub open spec fn body(
    l: Seq<Seq<char>>,
    k: int,
    src: usize,
    dst: usize,
    cur: Option<(DifferenceModel, char)>,
    acc: Seq<DifferenceModel>,
) -> (Seq<DifferenceModel>, int)
    decreases l.len() - k,
{
    if k < 0 || k >= l.len() || ends_body(l[k]) {
        (flushed(acc, cur), k)
    } else {
        let line = l[k];
        let t = body_text(line);
        if line[0] == ' ' {
            let d = DifferenceModel {
                source_lines: seq![t],
                dest_lines: seq![t],
                ..new_difference(DifferenceType::Unchanged, src, dst)
            };
            body(
                l,
                k + 1,
                src.wrapping_add(1),
                dst.wrapping_add(1),
                Some((d, ' ')),
                flushed(acc, cur),
            )
        } else if line[0] == '-' {
            match cur {
                Some((d, m)) => if m == '-' {
                    body(l, k + 1, src.wrapping_add(1), dst, Some((with_source_line(d, t), '-')), acc)
                } else {
                    body(
                        l,
                        k + 1,
                        src.wrapping_add(1),
                        dst,
                        Some(
                            (
                                with_source_line(
                                    new_difference(DifferenceType::Delete, src, dst),
                                    t,
                                ),
                                '-',
                            ),
                        ),
                        acc.push(d),
                    )
                },
                None => body(
                    l,
                    k + 1,
                    src.wrapping_add(1),
                    dst,
                    Some((with_source_line(new_difference(DifferenceType::Delete, src, dst), t), '-')),
                    acc,
                ),
            }
        } else if line[0] == '+' {
            match cur {
                Some((d, m)) => if m == '-' {
                    body(
                        l,
                        k + 1,
                        src,
                        dst.wrapping_add(1),
                        Some(
                            (
                                with_dest_line(
                                    DifferenceModel { diff_type: DifferenceType::Change, ..d },
                                    t,
                                ),
                                '+',
                            ),
                        ),
                        acc,
                    )
                } else if m == '+' {
                    body(l, k + 1, src, dst.wrapping_add(1), Some((with_dest_line(d, t), '+')), acc)
                } else {
                    body(
                        l,
                        k + 1,
                        src,
                        dst.wrapping_add(1),
                        Some(
                            (
                                with_dest_line(
                                    new_difference(DifferenceType::Insert, src, dst),
                                    t,
                                ),
                                '+',
                            ),
                        ),
                        acc.push(d),
                    )
                },
                None => body(
                    l,
                    k + 1,
                    src,
                    dst.wrapping_add(1),
                    Some((with_dest_line(new_difference(DifferenceType::Insert, src, dst), t), '+')),
                    acc,
                ),
            }
        } else {
            (flushed(acc, cur), k)
        }
    }
}

/// The body ends at or after where it starts, within the input.
pub proof fn lemma_body_end(
    l: Seq<Seq<char>>,
    k: int,
    src: usize,
    dst: usize,
    cur: Option<(DifferenceModel, char)>,
    acc: Seq<DifferenceModel>,
)
    requires
        0 <= k <= l.len(),
    ensures
        k <= body(l, k, src, dst, cur, acc).1 <= l.len(),
    decreases l.len() - k,
{
    if k < l.len() && !ends_body(l[k]) {
        let line = l[k];
        let t = body_text(line);
        if line[0] == ' ' {
            let d = DifferenceModel {
                source_lines: seq![t],
                dest_lines: seq![t],
                ..new_difference(DifferenceType::Unchanged, src, dst)
            };
            lemma_body_end(l, k + 1, src.wrapping_add(1), dst.wrapping_add(1), Some((d, ' ')), flushed(acc, cur));
        } else if line[0] == '-' {
            match cur {
                Some((d, m)) => if m == '-' {
                    lemma_body_end(l, k + 1, src.wrapping_add(1), dst, Some((with_source_line(d, t), '-')), acc);
                } else {
                    lemma_body_end(l, k + 1, src.wrapping_add(1), dst, Some((with_source_line(new_difference(DifferenceType::Delete, src, dst), t), '-')), acc.push(d));
                },
                None => {
                    lemma_body_end(l, k + 1, src.wrapping_add(1), dst, Some((with_source_line(new_difference(DifferenceType::Delete, src, dst), t), '-')), acc);
                },
            }
        } else if line[0] == '+' {
            match cur {
                Some((d, m)) => if m == '-' {
                    lemma_body_end(l, k + 1, src, dst.wrapping_add(1), Some((with_dest_line(DifferenceModel { diff_type: DifferenceType::Change, ..d }, t), '+')), acc);
                } else if m == '+' {
                    lemma_body_end(l, k + 1, src, dst.wrapping_add(1), Some((with_dest_line(d, t), '+')), acc);
                } else {
                    lemma_body_end(l, k + 1, src, dst.wrapping_add(1), Some((with_dest_line(new_difference(DifferenceType::Insert, src, dst), t), '+')), acc.push(d));
                },
                None => {
                    lemma_body_end(l, k + 1, src, dst.wrapping_add(1), Some((with_dest_line(new_difference(DifferenceType::Insert, src, dst), t), '+')), acc);
                },
            }
        }
    }
}

/// The hunk whose header is line `j` (with captures `c`), and the index of
/// the first line after its body.
pub open spec fn hunk_at(l: Seq<Seq<char>>, j: int, c: Seq<Option<Seq<char>>>) -> (HunkModel, int) {
    let src_start = num_or(group_of(c, 1), 0);
    let dst_start = num_or(group_of(c, 3), 0);
    let b = body(l, j + 1, src_start, dst_start, None, Seq::empty());
    (
        HunkModel {
            source_start: src_start,
            source_count: num_or(group_of(c, 2), 1),
            dest_start: dst_start,
            dest_count: num_or(group_of(c, 4), 1),
            function_name: function_name_of(c, 5),
            hunk_type: HunkType::Normal,
            differences: b.0,
        },
        b.1,
    )
}

/// The hunks of one file patch from line `j` on, and the index where they
/// end: a hunk header starts a hunk, a source file header ends the list,
/// any other line is skipped.
pub open spec fn hunks_from(l: Seq<Seq<char>>, j: int) -> (Seq<HunkModel>, int)
    decreases l.len() - j,
{
    if j < 0 || j >= l.len() {
        (Seq::empty(), j)
    } else {
        match regex_captures_of(HUNK_HEADER@, l[j]) {
            Some(c) => {
                let h = hunk_at(l, j, c);
                proof {
                    lemma_body_end(
                        l,
                        j + 1,
                        num_or(group_of(c, 1), 0),
                        num_or(group_of(c, 3), 0),
                        None,
                        Seq::empty(),
                    );
                }
                let rest = hunks_from(l, h.1);
                (seq![h.0] + rest.0, rest.1)
            },
            None => if regex_captures_of(HEADER1@, l[j]) is Some {
                (Seq::empty(), j)
            } else {
                hunks_from(l, j + 1)
            },
        }
    }
}

/// The hunk list ends at or after where it starts, within the input.
pub proof fn lemma_hunks_end(l: Seq<Seq<char>>, j: int)
    requires
        0 <= j <= l.len(),
    ensures
        j <= hunks_from(l, j).1 <= l.len(),
    decreases l.len() - j,
{
    if j < l.len() {
        match regex_captures_of(HUNK_HEADER@, l[j]) {
            Some(c) => {
                lemma_body_end(
                    l,
                    j + 1,
                    num_or(group_of(c, 1), 0),
                    num_or(group_of(c, 3), 0),
                    None,
                    Seq::empty(),
                );
                lemma_hunks_end(l, hunk_at(l, j, c).1);
            },
            None => if regex_captures_of(HEADER1@, l[j]) is None {
                lemma_hunks_end(l, j + 1);
            },
        }
    }
}

/// The file patch of a `---` header with captures `c1` and a `+++` header
/// with captures `c2`, holding `hunks`.
pub open spec fn unified_file(
    c1: Seq<Option<Seq<char>>>,
    c2: Seq<Option<Seq<char>>>,
    hunks: Seq<HunkModel>,
) -> FilePatchModel {
    FilePatchModel {
        source: text_of(c1, 1),
        source_timestamp: text_of(c1, 2),
        source_revision: text_of(c1, 3),
        destination: text_of(c2, 1),
        dest_timestamp: text_of(c2, 2),
        dest_revision: text_of(c2, 3),
        hunks,
        ..new_file_patch()
    }
}

/// The file patches of unified diff lines from `i` on: a `---` header
/// directly followed by a `+++` header opens a file patch that holds the
/// hunks after it; other lines are skipped.
pub open spec fn unified_from(l: Seq<Seq<char>>, i: int) -> Seq<FilePatchModel>
    decreases l.len() - i,
{
    if i < 0 || i >= l.len() {
        Seq::empty()
    } else {
        match regex_captures_of(HEADER1@, l[i]) {
            Some(c1) => if i + 1 >= l.len() {
                unified_from(l, i + 1)
            } else {
                match regex_captures_of(HEADER2@, l[i + 1]) {
                    Some(c2) => {
                        let h = hunks_from(l, i + 2);
                        proof {
                            lemma_hunks_end(l, i + 2);
                        }
                        seq![unified_file(c1, c2, h.0)] + unified_from(l, h.1)
                    },
                    None => unified_from(l, i + 1),
                }
            },
            None => unified_from(l, i + 1),
        }
    }
}

/// The model of the pending difference.
pub open spec fn pending_view(cur: Option<(PatchDifference, char)>) -> Option<(DifferenceModel, char)> {
    match cur {
        Some((d, m)) => Some((d@, m)),
        None => None,
    }
}

/// Closes the pending difference, if any.
fn flush(acc: &mut Vec<PatchDifference>, cur: Option<(PatchDifference, char)>)
    ensures
        diffs_view(final(acc)@) == flushed(diffs_view(old(acc)@), pending_view(cur)),
{
    match cur {
        Some((d, _)) => {
            proof {
                lemma_diffs_push(acc@, d);
            }
            acc.push(d);
        },
        None => {},
    }
}

/// Whether line `s` ends a hunk body.
fn ends_hunk_body(s: &str, cs: &Vec<char>) -> (res: bool)
    requires
        cs@ == s@,
    ensures
        res == ends_body(s@),
{
    cs.len() == 0 || regex_captures(HEADER1, s).is_some() || regex_captures(HUNK_HEADER, s).is_some()
}

/// The text of a body line: its characters after the marker and a newline.
fn body_line(cs: &Vec<char>) -> (res: String)
    requires
        cs@.len() > 0,
    ensures
        res@ == body_text(cs@),
{
    let rest = slice_chars(cs.as_slice(), 1, cs.len());
    let mut s = string_from_chars(rest.as_slice());
    string_push(&mut s, '\n');
    assert(rest@ == cs@.drop_first());
    s
}

/// A difference holding one source line.
fn diff_with_source(diff_type: DifferenceType, src: usize, dst: usize, t: String) -> (res: PatchDifference)
    ensures
        res@ == with_source_line(new_difference(diff_type, src, dst), t@),
{
    let mut d = PatchDifference::new(diff_type, src, dst);
    proof {
        lemma_lines_push(d.source_lines@, t);
    }
    d.source_lines.push(t);
    d
}

/// A difference holding one destination line.
fn diff_with_dest(diff_type: DifferenceType, src: usize, dst: usize, t: String) -> (res: PatchDifference)
    ensures
        res@ == with_dest_line(new_difference(diff_type, src, dst), t@),
{
    let mut d = PatchDifference::new(diff_type, src, dst);
    proof {
        lemma_lines_push(d.dest_lines@, t);
    }
    d.dest_lines.push(t);
    d
}

/// The differences of the hunk body starting at line `k`.
fn parse_body(lines: &[&str], k0: usize, src0: usize, dst0: usize) -> (res: (Vec<PatchDifference>, usize))
    requires
        k0 <= lines@.len(),
    ensures
        (diffs_view(res.0@), res.1 as int) == body(lines_model(lines@), k0 as int, src0, dst0, None, Seq::empty()),
{
    let ghost l = lines_model(lines@);
    let n = lines.len();
    let mut acc: Vec<PatchDifference> = Vec::new();
    let mut cur: Option<(PatchDifference, char)> = None;
    let mut src = src0;
    let mut dst = dst0;
    let mut k = k0;
    assert(diffs_view(acc@) =~= Seq::<DifferenceModel>::empty());
    loop
        invariant_except_break
            body(l, k as int, src, dst, pending_view(cur), diffs_view(acc@))
                == body(l, k0 as int, src0, dst0, None, Seq::empty()),
        invariant
            n == lines@.len(),
            l == lines_model(lines@),
            k0 <= k <= n,
        ensures
            (diffs_view(acc@), k as int) == body(l, k0 as int, src0, dst0, None, Seq::empty()),
        decreases n - k,
    {
        if k >= n {
            flush(&mut acc, cur);
            break;
        }
        let cs = chars_of(lines[k]);
        assert(l[k as int] == cs@);
        if ends_hunk_body(lines[k], &cs) {
            flush(&mut acc, cur);
            break;
        }
        let first = cs[0];
        if first == ' ' {
            let t = body_line(&cs);
            flush(&mut acc, cur);
            let mut d = PatchDifference::new(DifferenceType::Unchanged, src, dst);
            let t2 = t.clone();
            proof {
                lemma_lines_push(d.source_lines@, t);
                lemma_lines_push(d.dest_lines@, t2);
            }
            d.source_lines.push(t);
            d.dest_lines.push(t2);
            proof {
                assert(d@.source_lines =~= seq![body_text(cs@)]);
                assert(d@.dest_lines =~= seq![body_text(cs@)]);
            }
            cur = Some((d, ' '));
            src = src.wrapping_add(1);
            dst = dst.wrapping_add(1);
        } else if first == '-' {
            let t = body_line(&cs);
            match cur {
                Some((mut d, m)) => {
                    if m == '-' {
                        proof {
                            lemma_lines_push(d.source_lines@, t);
                        }
                        d.source_lines.push(t);
                        cur = Some((d, '-'));
                    } else {
                        proof {
                            lemma_diffs_push(acc@, d);
                        }
                        acc.push(d);
                        cur = Some((diff_with_source(DifferenceType::Delete, src, dst, t), '-'));
                    }
                },
                None => {
                    cur = Some((diff_with_source(DifferenceType::Delete, src, dst, t), '-'));
                },
            }
            src = src.wrapping_add(1);
        } else if first == '+' {
            let t = body_line(&cs);
            match cur {
                Some((mut d, m)) => {
                    if m == '-' {
                        d.diff_type = DifferenceType::Change;
                        proof {
                            lemma_lines_push(d.dest_lines@, t);
                        }
                        d.dest_lines.push(t);
                        cur = Some((d, '+'));
                    } else if m == '+' {
                        proof {
                            lemma_lines_push(d.dest_lines@, t);
                        }
                        d.dest_lines.push(t);
                        cur = Some((d, '+'));
                    } else {
                        proof {
                            lemma_diffs_push(acc@, d);
                        }
                        acc.push(d);
                        cur = Some((diff_with_dest(DifferenceType::Insert, src, dst, t), '+'));
                    }
                },
                None => {
                    cur = Some((diff_with_dest(DifferenceType::Insert, src, dst, t), '+'));
                },
            }
            dst = dst.wrapping_add(1);
        } else {
            flush(&mut acc, cur);
            break;
        }
        k += 1;
    }
    (acc, k)
}

/// The hunks of one file patch starting at line `j`.
fn parse_hunks(lines: &[&str], j0: usize) -> (res: (Vec<Hunk>, usize))
    requires
        j0 <= lines@.len(),
    ensures
        (hunks_view(res.0@), res.1 as int) == hunks_from(lines_model(lines@), j0 as int),
{
    let ghost l = lines_model(lines@);
    let n = lines.len();
    let mut hunks: Vec<Hunk> = Vec::new();
    let mut j = j0;
    assert(hunks_view(hunks@) =~= Seq::<HunkModel>::empty());
    loop
        invariant
            n == lines@.len(),
            l == lines_model(lines@),
            j0 <= j <= n,
            (hunks_view(hunks@) + hunks_from(l, j as int).0, hunks_from(l, j as int).1)
                == hunks_from(l, j0 as int),
        ensures
            (hunks_view(hunks@), j as int) == hunks_from(l, j0 as int),
        decreases n - j,
    {
        if j >= n {
            assert(hunks_view(hunks@) + Seq::<HunkModel>::empty() =~= hunks_view(hunks@));
            break;
        }
        if let Some(cap) = regex_captures(HUNK_HEADER, lines[j]) {
            let src_start = group_num(&cap, 1, 0);
            let src_count = group_num(&cap, 2, 1);
            let dst_start = group_num(&cap, 3, 0);
            let dst_count = group_num(&cap, 4, 1);
            let func_name = group_name(&cap, 5);
            let ghost c = super::groups(cap);
            let (diffs, k) = parse_body(lines, j + 1, src_start, dst_start);
            let hunk = Hunk {
                source_start: src_start,
                source_count: src_count,
                dest_start: dst_start,
                dest_count: dst_count,
                function_name: func_name,
                hunk_type: HunkType::Normal,
                differences: diffs,
            };
            proof {
                lemma_body_end(l, j + 1, src_start, dst_start, None, Seq::empty());
                assert(hunk@ == hunk_at(l, j as int, c).0);
                lemma_hunks_push(hunks@, hunk);
                assert(hunks_view(hunks@.push(hunk)) + hunks_from(l, k as int).0 =~= hunks_view(
                    hunks@,
                ) + hunks_from(l, j as int).0);
            }
            hunks.push(hunk);
            j = k;
        } else if regex_captures(HEADER1, lines[j]).is_some() {
            assert(hunks_view(hunks@) + Seq::<HunkModel>::empty() =~= hunks_view(hunks@));
            break;
        } else {
            j += 1;
        }
    }
    (hunks, j)
}

/// Parse unified diff format into a list of file patches, one per file pair.
pub fn parse_unified(lines: &[&str]) -> (res: Result<Vec<FilePatch>, RCompareError>)
    ensures
        res matches Ok(v) && files_view(v@) == unified_from(lines_model(lines@), 0),
{
    let ghost l = lines_model(lines@);
    let n = lines.len();
    let mut file_patches: Vec<FilePatch> = Vec::new();
    let mut i: usize = 0;
    assert(files_view(file_patches@) =~= Seq::<FilePatchModel>::empty());
    while i < n
        invariant
            n == lines@.len(),
            l == lines_model(lines@),
            i <= n,
            files_view(file_patches@) + unified_from(l, i as int) == unified_from(l, 0),
        decreases n - i,
    {
        if let Some(cap1) = regex_captures(HEADER1, lines[i]) {
            if i + 1 >= n {
                i += 1;
                continue;
            }
            if let Some(cap2) = regex_captures(HEADER2, lines[i + 1]) {
                let mut fp = FilePatch::new();
                fp.source = string_from_chars(group_text(&cap1, 1).as_slice());
                fp.source_timestamp = string_from_chars(group_text(&cap1, 2).as_slice());
                fp.source_revision = string_from_chars(group_text(&cap1, 3).as_slice());
                fp.destination = string_from_chars(group_text(&cap2, 1).as_slice());
                fp.dest_timestamp = string_from_chars(group_text(&cap2, 2).as_slice());
                fp.dest_revision = string_from_chars(group_text(&cap2, 3).as_slice());
                let (hunks, j) = parse_hunks(lines, i + 2);
                fp.hunks = hunks;
                proof {
                    lemma_hunks_end(l, i + 2);
                    assert(fp@ == unified_file(super::groups(cap1), super::groups(cap2), hunks_from(l, i + 2).0));
                    lemma_files_push(file_patches@, fp);
                    assert(files_view(file_patches@.push(fp)) + unified_from(l, j as int) =~= files_view(
                        file_patches@,
                    ) + unified_from(l, i as int));
                }
                file_patches.push(fp);
                i = j;
            } else {
                i += 1;
            }
        } else {
            i += 1;
        }
    }
    assert(files_view(file_patches@) + Seq::<FilePatchModel>::empty() =~= files_view(file_patches@));
    Ok(file_patches)
}

} // verus!
