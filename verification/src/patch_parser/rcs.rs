//! The RCS diff format: `aN M` adds the M following lines after line N,
//! `dN M` deletes M lines starting at line N.

use super::{
    empty_lines, empty_strings, files_view, group_num, lemma_hunks_push, lemma_lines_push,
    line_with_newline, lines_model, num_or, single_file,
};
use crate::error::RCompareError;
use crate::patch_types::{
    lines_view, new_difference, new_file_patch, new_hunk, DifferenceModel, DifferenceType,
    FilePatch, FilePatchModel, Hunk, HunkModel, PatchDifference,
};
use crate::regex_match::{group_of, regex_captures, regex_captures_of};
use vstd::prelude::*;

verus! {

/// RCS add command: `aN M`.
pub const RCS_ADD: &'static str = r"^a(\d+)\s+(\d+)$";

/// RCS delete command: `dN M`.
pub const RCS_DELETE: &'static str = r"^d(\d+)\s+(\d+)$";

/// The hunks that the RCS commands from line `i` on describe. An add command
/// takes as content the next `M` lines (fewer where the input ends first);
/// a delete command has `M` empty placeholder source lines.
pub open spec fn rcs_hunks(l: Seq<Seq<char>>, i: int) -> Seq<HunkModel>
    decreases l.len() - i,
{
    if i < 0 || i >= l.len() {
        Seq::empty()
    } else {
        match regex_captures_of(RCS_ADD@, l[i]) {
            Some(c) => {
                let after = num_or(group_of(c, 1), 0);
                let count = num_or(group_of(c, 2), 0);
                let avail = l.len() - (i + 1);
                let take: int = if count <= avail {
                    count as int
                } else {
                    avail
                };
                let added = Seq::new(take as nat, |k: int| l[i + 1 + k].push('\n'));
                let diff = DifferenceModel {
                    dest_lines: added,
                    ..new_difference(DifferenceType::Insert, after, after.wrapping_add(1))
                };
                let hunk = HunkModel {
                    source_count: 0,
                    dest_count: count,
                    differences: seq![diff],
                    ..new_hunk(after, after.wrapping_add(1))
                };
                seq![hunk] + rcs_hunks(l, i + 1 + take)
            },
            None => match regex_captures_of(RCS_DELETE@, l[i]) {
                Some(c) => {
                    let start = num_or(group_of(c, 1), 0);
                    let count = num_or(group_of(c, 2), 0);
                    let diff = DifferenceModel {
                        source_lines: empty_lines(count),
                        ..new_difference(DifferenceType::Delete, start, start)
                    };
                    let hunk = HunkModel {
                        source_count: count,
                        dest_count: 0,
                        differences: seq![diff],
                        ..new_hunk(start, start)
                    };
                    seq![hunk] + rcs_hunks(l, i + 1)
                },
                None => rcs_hunks(l, i + 1),
            },
        }
    }
}

/// Parse RCS diff format: one file patch holding a hunk per command, or no
/// file patch when there is no command.
pub fn parse_rcs(lines: &[&str]) -> (res: Result<Vec<FilePatch>, RCompareError>)
    ensures
        res matches Ok(v) && files_view(v@) == single_file(rcs_hunks(lines_model(lines@), 0)),
{
    let ghost l = lines_model(lines@);
    let mut fp = FilePatch::new();
    let n = lines.len();
    let mut i: usize = 0;
    while i < n
        invariant
            n == lines@.len(),
            l == lines_model(lines@),
            i <= n,
            fp@ == (FilePatchModel { hunks: fp@.hunks, ..new_file_patch() }),
            fp@.hunks + rcs_hunks(l, i as int) == rcs_hunks(l, 0),
        decreases n - i,
    {
        let ghost before = fp@.hunks;
        if let Some(cap) = regex_captures(RCS_ADD, lines[i]) {
            let after_line = group_num(&cap, 1, 0);
            let count = group_num(&cap, 2, 0);
            i += 1;
            let ghost start_i = i;
            let mut diff = PatchDifference::new(
                DifferenceType::Insert,
                after_line,
                after_line.wrapping_add(1),
            );
            let mut k: usize = 0;
            assert(Seq::new(0, |j: int| l[start_i + j].push('\n')) =~= Seq::<Seq<char>>::empty());
            while k < count && i < n
                invariant
                    n == lines@.len(),
                    l == lines_model(lines@),
                    start_i <= i <= n,
                    i == start_i + k,
                    k <= count,
                    diff@ == (DifferenceModel {
                        dest_lines: Seq::new(k as nat, |j: int| l[start_i + j].push('\n')),
                        ..new_difference(DifferenceType::Insert, after_line, after_line.wrapping_add(1))
                    }),
                decreases n - i,
            {
                let s = line_with_newline(lines[i]);
                proof {
                    lemma_lines_push(diff.dest_lines@, s);
                }
                diff.dest_lines.push(s);
                proof {
                    assert(lines_view(diff.dest_lines@) =~= Seq::new(
                        (k + 1) as nat,
                        |j: int| l[start_i + j].push('\n'),
                    ));
                }
                i += 1;
                k += 1;
            }
            let mut hunk = Hunk::new(after_line, after_line.wrapping_add(1));
            hunk.source_count = 0;
            hunk.dest_count = count;
            hunk.differences.push(diff);
            proof {
                lemma_hunks_push(fp.hunks@, hunk);
                assert(hunk@.differences =~= seq![diff@]);
            }
            fp.hunks.push(hunk);
            proof {
                assert(rcs_hunks(l, start_i - 1) == seq![hunk@] + rcs_hunks(l, i as int));
                assert(fp@.hunks + rcs_hunks(l, i as int) =~= before + rcs_hunks(
                    l,
                    start_i - 1,
                ));
            }
        } else if let Some(cap) = regex_captures(RCS_DELETE, lines[i]) {
            let start_line = group_num(&cap, 1, 0);
            let count = group_num(&cap, 2, 0);
            i += 1;
            let mut diff = PatchDifference::new(DifferenceType::Delete, start_line, start_line);
            diff.source_lines = empty_strings(count);
            let mut hunk = Hunk::new(start_line, start_line);
            hunk.source_count = count;
            hunk.dest_count = 0;
            hunk.differences.push(diff);
            proof {
                lemma_hunks_push(fp.hunks@, hunk);
                assert(hunk@.differences =~= seq![diff@]);
            }
            fp.hunks.push(hunk);
            proof {
                assert(rcs_hunks(l, i - 1) == seq![hunk@] + rcs_hunks(l, i as int));
                assert(fp@.hunks + rcs_hunks(l, i as int) =~= before + rcs_hunks(l, i - 1));
            }
        } else {
            i += 1;
        }
    }
    assert(fp@.hunks + Seq::<HunkModel>::empty() =~= fp@.hunks);
    if fp.hunks.len() == 0 {
        Ok(Vec::new())
    } else {
        let mut v: Vec<FilePatch> = Vec::new();
        v.push(fp);
        assert(files_view(v@) =~= seq![fp@]);
        Ok(v)
    }
}

} // verus!
