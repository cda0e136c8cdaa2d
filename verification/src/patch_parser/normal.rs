//! The normal diff format: optional `diff source destination` headers and
//! `NaM[,O]`, `N[,M]dO`, `N[,M]cO[,P]` commands with `< ` and `> ` lines.

use super::{
    collect_prefixed, files_view, group_num, group_text, lemma_files_push, lemma_hunks_push,
    line_is, lines_model, num_or, scan_prefixed, span, stripped_lines,
};
use crate::error::RCompareError;
use crate::patch_types::{
    new_difference, new_file_patch, new_hunk, DifferenceModel, DifferenceType, FilePatch,
    FilePatchModel, Hunk, HunkModel, PatchDifference,
};
use crate::regex_match::{group_of, regex_captures, regex_captures_of};
use crate::text::string_from_chars;
use vstd::prelude::*;

verus! {

/// Normal diff header: `diff [-options] source destination`.
pub const DIFF_HEADER: &'static str =
    r#"^diff\s+(?:(?:-|--)[a-zA-Z0-9="\ ]+\s+)*(?:--\s+)?(.+)\s+(.+)$"#;

/// Added: `NaM` or `NaM,O`.
pub const HUNK_ADDED: &'static str = r"^(\d+)a(\d+)(?:,(\d+))?$";

/// Removed: `N,MdO` or `NdO`.
pub const HUNK_REMOVED: &'static str = r"^(\d+)(?:,(\d+))?d(\d+)$";

/// Changed: `N,McO,P`, `NcO`, `NcO,P` or `N,McO`.
pub const HUNK_CHANGED: &'static str = r"^(\d+)(?:,(\d+))?c(\d+)(?:,(\d+))?$";

/// The text of group `i`, or the empty sequence.
pub open spec fn text_of(c: Seq<Option<Seq<char>>>, i: int) -> Seq<char> {
    match group_of(c, i) {
        Some(t) => t,
        None => Seq::empty(),
    }
}

/// The file patch in progress, as a list.
pub open spec fn current_list(cur: Option<FilePatchModel>) -> Seq<FilePatchModel> {
    match cur {
        Some(f) => seq![f],
        None => Seq::empty(),
    }
}

/// The file patch in progress with `h` appended, or a new unnamed file patch
/// holding only `h`.
pub open spec fn with_hunk(cur: Option<FilePatchModel>, h: HunkModel) -> FilePatchModel {
    match cur {
        Some(f) => FilePatchModel { hunks: f.hunks.push(h), ..f },
        None => FilePatchModel { hunks: seq![h], ..new_file_patch() },
    }
}

/// The hunk of an add command at line `i` whose `> ` lines end before `j`.
pub open spec fn added_hunk(l: Seq<Seq<char>>, c: Seq<Option<Seq<char>>>, i: int, j: int) -> HunkModel {
    let src_line = num_or(group_of(c, 1), 0);
    let dst_start = num_or(group_of(c, 2), 0);
    let dst_end = num_or(group_of(c, 3), dst_start);
    let diff = DifferenceModel {
        dest_lines: stripped_lines(l, i + 1, j, 2),
        ..new_difference(DifferenceType::Insert, src_line, dst_start)
    };
    HunkModel {
        source_count: 0,
        dest_count: span(dst_start, dst_end),
        differences: seq![diff],
        ..new_hunk(src_line, dst_start)
    }
}

/// The hunk of a delete command at line `i` whose `< ` lines end before `j`.
pub open spec fn removed_hunk(l: Seq<Seq<char>>, c: Seq<Option<Seq<char>>>, i: int, j: int) -> HunkModel {
    let src_start = num_or(group_of(c, 1), 0);
    let src_end = num_or(group_of(c, 2), src_start);
    let dst_line = num_or(group_of(c, 3), 0);
    let diff = DifferenceModel {
        source_lines: stripped_lines(l, i + 1, j, 2),
        ..new_difference(DifferenceType::Delete, src_start, dst_line)
    };
    HunkModel {
        source_count: span(src_start, src_end),
        dest_count: 0,
        differences: seq![diff],
        ..new_hunk(src_start, dst_line)
    }
}

/// The hunk of a change command at line `i`: `< ` lines up to `j1`, an
/// optional `---` divider, then `> ` lines from `j2` up to `j3`.
pub open spec fn changed_hunk(
    l: Seq<Seq<char>>,
    c: Seq<Option<Seq<char>>>,
    i: int,
    j1: int,
    j2: int,
    j3: int,
) -> HunkModel {
    let src_start = num_or(group_of(c, 1), 0);
    let src_end = num_or(group_of(c, 2), src_start);
    let dst_start = num_or(group_of(c, 3), 0);
    let dst_end = num_or(group_of(c, 4), dst_start);
    let diff = DifferenceModel {
        source_lines: stripped_lines(l, i + 1, j1, 2),
        dest_lines: stripped_lines(l, j2, j3, 2),
        ..new_difference(DifferenceType::Change, src_start, dst_start)
    };
    HunkModel {
        source_count: span(src_start, src_end),
        dest_count: span(dst_start, dst_end),
        differences: seq![diff],
        ..new_hunk(src_start, dst_start)
    }
}

/// The file patches of normal diff lines from `i` on, given the file patch
/// in progress. A `diff` header closes the patch in progress and opens a new
/// one; a command adds a hunk to the patch in progress (opening an unnamed
/// one when there is none); other lines are skipped.
pub open spec fn normal_from(l: Seq<Seq<char>>, i: int, cur: Option<FilePatchModel>) -> Seq<
    FilePatchModel,
>
    decreases l.len() - i,
{
    if i < 0 || i >= l.len() {
        current_list(cur)
    } else {
        match regex_captures_of(DIFF_HEADER@, l[i]) {
            Some(c) => current_list(cur) + normal_from(
                l,
                i + 1,
                Some(
                    FilePatchModel {
                        source: text_of(c, 1),
                        destination: text_of(c, 2),
                        ..new_file_patch()
                    },
                ),
            ),
            None => match regex_captures_of(HUNK_ADDED@, l[i]) {
                Some(c) => {
                    let j = scan_prefixed(l, i + 1, seq!['>', ' ']);
                    proof {
                        super::lemma_scan_prefixed_bounds(l, i + 1, seq!['>', ' ']);
                    }
                    normal_from(l, j, Some(with_hunk(cur, added_hunk(l, c, i, j))))
                },
                None => match regex_captures_of(HUNK_REMOVED@, l[i]) {
                    Some(c) => {
                        let j = scan_prefixed(l, i + 1, seq!['<', ' ']);
                        proof {
                            super::lemma_scan_prefixed_bounds(l, i + 1, seq!['<', ' ']);
                        }
                        normal_from(l, j, Some(with_hunk(cur, removed_hunk(l, c, i, j))))
                    },
                    None => match regex_captures_of(HUNK_CHANGED@, l[i]) {
                        Some(c) => {
                            let j1 = scan_prefixed(l, i + 1, seq!['<', ' ']);
                            proof {
                                super::lemma_scan_prefixed_bounds(l, i + 1, seq!['<', ' ']);
                            }
                            let j2 = if j1 < l.len() && l[j1] == seq!['-', '-', '-'] {
                                j1 + 1
                            } else {
                                j1
                            };
                            let j3 = scan_prefixed(l, j2, seq!['>', ' ']);
                            proof {
                                super::lemma_scan_prefixed_bounds(l, j2, seq!['>', ' ']);
                            }
                            normal_from(
                                l,
                                j3,
                                Some(with_hunk(cur, changed_hunk(l, c, i, j1, j2, j3))),
                            )
                        },
                        None => normal_from(l, i + 1, cur),
                    },
                },
            },
        }
    }
}

/// The models of an optional file patch.
pub open spec fn opt_view(f: Option<FilePatch>) -> Option<FilePatchModel> {
    match f {
        Some(x) => Some(x@),
        None => None,
    }
}

/// Adds `hunk` to the file patch in progress, opening one when there is none.
fn add_hunk(cur: &mut Option<FilePatch>, hunk: Hunk)
    ensures
        opt_view(*final(cur)) == Some(with_hunk(opt_view(*old(cur)), hunk@)),
{
    match cur {
        Some(fp) => {
            proof {
                lemma_hunks_push(fp.hunks@, hunk);
            }
            fp.hunks.push(hunk);
        },
        None => {
            let mut fp = FilePatch::new();
            proof {
                lemma_hunks_push(fp.hunks@, hunk);
            }
            fp.hunks.push(hunk);
            assert(fp@.hunks =~= seq![hunk@]);
            *cur = Some(fp);
        },
    }
}

/// Parse normal diff format into a list of file patches.
pub fn parse_normal(lines: &[&str]) -> (res: Result<Vec<FilePatch>, RCompareError>)
    ensures
        res matches Ok(v) && files_view(v@) == normal_from(lines_model(lines@), 0, None),
{
    let ghost l = lines_model(lines@);
    let mut file_patches: Vec<FilePatch> = Vec::new();
    let mut current_fp: Option<FilePatch> = None;
    let n = lines.len();
    let mut i: usize = 0;
    let gt = vec!['>', ' '];
    let lt = vec!['<', ' '];
    let dashes = vec!['-', '-', '-'];
    assert(gt@ =~= seq!['>', ' ']);
    assert(lt@ =~= seq!['<', ' ']);
    assert(dashes@ =~= seq!['-', '-', '-']);
    assert(files_view(file_patches@) =~= Seq::<FilePatchModel>::empty());
    while i < n
        invariant
            n == lines@.len(),
            l == lines_model(lines@),
            i <= n,
            gt@ == seq!['>', ' '],
            lt@ == seq!['<', ' '],
            dashes@ == seq!['-', '-', '-'],
            files_view(file_patches@) + normal_from(l, i as int, opt_view(current_fp))
                == normal_from(l, 0, None),
        decreases n - i,
    {
        let ghost before_files = files_view(file_patches@);
        let ghost before_cur = opt_view(current_fp);
        let ghost at = i as int;
        if let Some(cap) = regex_captures(DIFF_HEADER, lines[i]) {
            if let Some(fp) = current_fp.take() {
                proof {
                    lemma_files_push(file_patches@, fp);
                }
                file_patches.push(fp);
            }
            let mut fp = FilePatch::new();
            let src = group_text(&cap, 1);
            let dst = group_text(&cap, 2);
            fp.source = string_from_chars(src.as_slice());
            fp.destination = string_from_chars(dst.as_slice());
            current_fp = Some(fp);
            i += 1;
            proof {
                assert(files_view(file_patches@) =~= before_files + current_list(before_cur));
            }
            continue;
        }
        if let Some(cap) = regex_captures(HUNK_ADDED, lines[i]) {
            let src_line = group_num(&cap, 1, 0);
            let dst_start = group_num(&cap, 2, 0);
            let dst_end = group_num(&cap, 3, dst_start);
            let (added, j) = collect_prefixed(lines, i + 1, gt.as_slice());
            let mut diff = PatchDifference::new(DifferenceType::Insert, src_line, dst_start);
            diff.dest_lines = added;
            let mut hunk = Hunk::new(src_line, dst_start);
            hunk.source_count = 0;
            hunk.dest_count = dst_end.wrapping_sub(dst_start).wrapping_add(1);
            hunk.differences.push(diff);
            proof {
                assert(hunk@.differences =~= seq![diff@]);
                assert(hunk@ == added_hunk(l, super::groups(cap), at, j as int));
            }
            add_hunk(&mut current_fp, hunk);
            i = j;
            continue;
        }
        if let Some(cap) = regex_captures(HUNK_REMOVED, lines[i]) {
            let src_start = group_num(&cap, 1, 0);
            let src_end = group_num(&cap, 2, src_start);
            let dst_line = group_num(&cap, 3, 0);
            let (removed, j) = collect_prefixed(lines, i + 1, lt.as_slice());
            let mut diff = PatchDifference::new(DifferenceType::Delete, src_start, dst_line);
            diff.source_lines = removed;
            let mut hunk = Hunk::new(src_start, dst_line);
            hunk.source_count = src_end.wrapping_sub(src_start).wrapping_add(1);
            hunk.dest_count = 0;
            hunk.differences.push(diff);
            proof {
                assert(hunk@.differences =~= seq![diff@]);
                assert(hunk@ == removed_hunk(l, super::groups(cap), at, j as int));
            }
            add_hunk(&mut current_fp, hunk);
            i = j;
            continue;
        }
        if let Some(cap) = regex_captures(HUNK_CHANGED, lines[i]) {
            let src_start = group_num(&cap, 1, 0);
            let src_end = group_num(&cap, 2, src_start);
            let dst_start = group_num(&cap, 3, 0);
            let dst_end = group_num(&cap, 4, dst_start);
            let (removed, j1) = collect_prefixed(lines, i + 1, lt.as_slice());
            let j2 = if j1 < n && line_is(lines[j1], dashes.as_slice()) {
                j1 + 1
            } else {
                j1
            };
            let (added, j3) = collect_prefixed(lines, j2, gt.as_slice());
            let mut diff = PatchDifference::new(DifferenceType::Change, src_start, dst_start);
            diff.source_lines = removed;
            diff.dest_lines = added;
            let mut hunk = Hunk::new(src_start, dst_start);
            hunk.source_count = src_end.wrapping_sub(src_start).wrapping_add(1);
            hunk.dest_count = dst_end.wrapping_sub(dst_start).wrapping_add(1);
            hunk.differences.push(diff);
            proof {
                assert(hunk@.differences =~= seq![diff@]);
                assert(hunk@ == changed_hunk(
                    l,
                    super::groups(cap),
                    at,
                    j1 as int,
                    j2 as int,
                    j3 as int,
                ));
            }
            add_hunk(&mut current_fp, hunk);
            i = j3;
            continue;
        }
        i += 1;
    }
    if let Some(fp) = current_fp {
        proof {
            lemma_files_push(file_patches@, fp);
        }
        file_patches.push(fp);
    }
    proof {
        assert(files_view(file_patches@) =~= files_view(file_patches@) + Seq::<
            FilePatchModel,
        >::empty());
    }
    Ok(file_patches)
}

} // verus!
