//! The ed diff format: `N[,M]a`, `N[,M]c` and `N[,M]d` commands, each
//! followed by content lines up to a lone `.`.

use super::{
    empty_lines, empty_strings, files_view, group_num, group_text, lemma_hunks_push,
    lemma_lines_push, line_with_newline, lines_model, num_or, single_file, span,
};
use crate::error::RCompareError;
use crate::patch_types::{
    lines_view, new_difference, new_file_patch, new_hunk, DifferenceModel, DifferenceType,
    FilePatch, FilePatchModel, Hunk, HunkModel, PatchDifference,
};
use crate::regex_match::{group_of, regex_captures, regex_captures_of};
use crate::text::chars_of;
use vstd::prelude::*;

verus! {

/// Ed command: `N[,M]a`, `N[,M]c` or `N[,M]d`.
pub const ED_COMMAND: &'static str = r"^(\d+)(?:,(\d+))?([acd])$";

/// Index of the first line at or after `i` that is a lone `.`, or the
/// number of lines.
pub open spec fn next_dot(l: Seq<Seq<char>>, i: int) -> int
    decreases l.len() - i,
{
    if i >= l.len() {
        l.len() as int
    } else if l[i] == seq!['.'] {
        i
    } else {
        next_dot(l, i + 1)
    }
}

/// `next_dot` lies between `i` and the number of lines.
pub proof fn lemma_next_dot_bounds(l: Seq<Seq<char>>, i: int)
    requires
        0 <= i <= l.len(),
    ensures
        i <= next_dot(l, i) <= l.len(),
    decreases l.len() - i,
{
    if i < l.len() && l[i] != seq!['.'] {
        lemma_next_dot_bounds(l, i + 1);
    }
}

/// The hunk an ed command describes: `a` appends its content after line
/// `start`, `d` deletes lines `start..=end` (empty placeholders), `c`
/// replaces them with its content; any other command gives no hunk.
pub open spec fn ed_hunk(
    cmd: Option<Seq<char>>,
    start: usize,
    end: usize,
    content: Seq<Seq<char>>,
) -> Seq<HunkModel> {
    let line_count = span(start, end);
    if cmd == Some(seq!['a']) {
        let diff = DifferenceModel {
            dest_lines: content,
            ..new_difference(DifferenceType::Insert, start, start.wrapping_add(1))
        };
        seq![
            HunkModel {
                source_count: 0,
                dest_count: content.len() as usize,
                differences: seq![diff],
                ..new_hunk(start, start.wrapping_add(1))
            },
        ]
    } else if cmd == Some(seq!['d']) {
        let diff = DifferenceModel {
            source_lines: empty_lines(line_count),
            ..new_difference(DifferenceType::Delete, start, start)
        };
        seq![
            HunkModel {
                source_count: line_count,
                dest_count: 0,
                differences: seq![diff],
                ..new_hunk(start, start)
            },
        ]
    } else if cmd == Some(seq!['c']) {
        let diff = DifferenceModel {
            source_lines: empty_lines(line_count),
            dest_lines: content,
            ..new_difference(DifferenceType::Change, start, start)
        };
        seq![
            HunkModel {
                source_count: line_count,
                dest_count: content.len() as usize,
                differences: seq![diff],
                ..new_hunk(start, start)
            },
        ]
    } else {
        Seq::empty()
    }
}

/// The hunks that the ed commands from line `i` on describe.
pub open spec fn ed_hunks(l: Seq<Seq<char>>, i: int) -> Seq<HunkModel>
    decreases l.len() - i,
{
    if i < 0 || i >= l.len() {
        Seq::empty()
    } else {
        match regex_captures_of(ED_COMMAND@, l[i]) {
            Some(c) => {
                let start = num_or(group_of(c, 1), 0);
                let end = num_or(group_of(c, 2), start);
                let j = next_dot(l, i + 1);
                proof {
                    lemma_next_dot_bounds(l, i + 1);
                }
                let content = Seq::new((j - (i + 1)) as nat, |k: int| l[i + 1 + k].push('\n'));
                let next = if j < l.len() {
                    j + 1
                } else {
                    j
                };
                ed_hunk(group_of(c, 3), start, end, content) + ed_hunks(l, next)
            },
            None => ed_hunks(l, i + 1),
        }
    }
}

/// Whether `s` is a lone `.`.
fn is_dot_line(s: &str) -> (res: bool)
    ensures
        res == (s@ == seq!['.']),
{
    let cs = chars_of(s);
    let res = cs.len() == 1 && cs[0] == '.';
    assert(res ==> cs@ =~= seq!['.']);
    res
}

/// Whether `v` holds exactly the character `c`.
fn is_single(v: &Vec<char>, c: char) -> (res: bool)
    ensures
        res == (v@ == seq![c]),
{
    let res = v.len() == 1 && v[0] == c;
    assert(res ==> v@ =~= seq![c]);
    res
}

/// Parse ed diff format: one file patch holding a hunk per `a`, `c` or `d`
/// command, or no file patch when there is none.
pub fn parse_ed(lines: &[&str]) -> (res: Result<Vec<FilePatch>, RCompareError>)
    ensures
        res matches Ok(v) && files_view(v@) == single_file(ed_hunks(lines_model(lines@), 0)),
{
    let ghost l = lines_model(lines@);
    let mut fp = FilePatch::new();
    let n = lines.len();
    let mut i: usize = 0;
    while i < n
        invariant
            n == lines@.len(),
            l == lines_model(lines@),
            i <= n,
            fp@ == (FilePatchModel { hunks: fp@.hunks, ..new_file_patch() }),
            fp@.hunks + ed_hunks(l, i as int) == ed_hunks(l, 0),
        decreases n - i,
    {
        let ghost before = fp@.hunks;
        let ghost cmd_i = i as int;
        if let Some(cap) = regex_captures(ED_COMMAND, lines[i]) {
            let start = group_num(&cap, 1, 0);
            let end = group_num(&cap, 2, start);
            let cmd = group_text(&cap, 3);
            i += 1;
            let ghost first = i as int;
            let mut content_lines: Vec<String> = Vec::new();
            assert(Seq::new(0, |k: int| l[first + k].push('\n')) =~= Seq::<Seq<char>>::empty());
            #[verifier::loop_isolation(false)]
            while i < n && !is_dot_line(lines[i])
                invariant
                    n == lines@.len(),
                    l == lines_model(lines@),
                    first <= i <= n,
                    next_dot(l, first) == next_dot(l, i as int),
                    lines_view(content_lines@) == Seq::new(
                        (i - first) as nat,
                        |k: int| l[first + k].push('\n'),
                    ),
                decreases n - i,
            {
                let s = line_with_newline(lines[i]);
                proof {
                    lemma_lines_push(content_lines@, s);
                }
                content_lines.push(s);
                proof {
                    assert(lines_view(content_lines@) =~= Seq::new(
                        (i + 1 - first) as nat,
                        |k: int| l[first + k].push('\n'),
                    ));
                }
                i += 1;
            }
            let ghost j = i as int;
            assert(next_dot(l, first) == j);
            if i < n && is_dot_line(lines[i]) {
                i += 1;
            }
            let line_count = end.wrapping_sub(start).wrapping_add(1);
            let ghost content = lines_view(content_lines@);
            let ghost made = ed_hunk(group_of(super::groups(cap), 3), start, end, content);
            if is_single(&cmd, 'a') {
                let mut diff = PatchDifference::new(
                    DifferenceType::Insert,
                    start,
                    start.wrapping_add(1),
                );
                diff.dest_lines = content_lines;
                let mut hunk = Hunk::new(start, start.wrapping_add(1));
                hunk.source_count = 0;
                hunk.dest_count = diff.dest_lines.len();
                hunk.differences.push(diff);
                proof {
                    lemma_hunks_push(fp.hunks@, hunk);
                    assert(hunk@.differences =~= seq![diff@]);
                    assert(cmd@ == seq!['a']);
                    assert(made =~= seq![hunk@]);
                }
                fp.hunks.push(hunk);
            } else if is_single(&cmd, 'd') {
                let mut diff = PatchDifference::new(DifferenceType::Delete, start, start);
                diff.source_lines = empty_strings(line_count);
                let mut hunk = Hunk::new(start, start);
                hunk.source_count = line_count;
                hunk.dest_count = 0;
                hunk.differences.push(diff);
                proof {
                    lemma_hunks_push(fp.hunks@, hunk);
                    assert(hunk@.differences =~= seq![diff@]);
                    assert(cmd@ == seq!['d']);
                    assert(made =~= seq![hunk@]);
                }
                fp.hunks.push(hunk);
            } else if is_single(&cmd, 'c') {
                let mut diff = PatchDifference::new(DifferenceType::Change, start, start);
                diff.source_lines = empty_strings(line_count);
                diff.dest_lines = content_lines;
                let mut hunk = Hunk::new(start, start);
                hunk.source_count = line_count;
                hunk.dest_count = diff.dest_lines.len();
                hunk.differences.push(diff);
                proof {
                    lemma_hunks_push(fp.hunks@, hunk);
                    assert(hunk@.differences =~= seq![diff@]);
                    assert(cmd@ == seq!['c']);
                    assert(made =~= seq![hunk@]);
                }
                fp.hunks.push(hunk);
            } else {
                assert(made == Seq::<HunkModel>::empty());
                assert(fp@.hunks =~= before + made);
            }
            proof {
                assert(ed_hunks(l, cmd_i) == made + ed_hunks(l, i as int));
                assert(fp@.hunks + ed_hunks(l, i as int) =~= before + ed_hunks(l, cmd_i));
            }
        } else {
            i += 1;
        }
    }
    assert(fp@.hunks + Seq::<HunkModel>::empty() =~= fp@.hunks);
    if fp.hunks.len() == 0 {
        Ok(Vec::new())
    } else {
        let mut v: Vec<FilePatch> = Vec::new();
        v.push(fp);
        assert(files_view(v@) =~= seq![fp@]);
        Ok(v)
    }
}

} // verus!
