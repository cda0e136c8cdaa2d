//! The list of relative paths a copy works on, and what becomes of each
//! path: skipped when unsafe, missing when its source does not exist,
//! planned in a dry run, else copied or failed.

use crate::csv_diff::{insert_sorted, keys_view, strictly_sorted};
use crate::paths::{is_safe_relative_path, safe_relative};
use crate::text::{chars_of, concat_str, lowercase_of, push_str, same_text, split_lines_chars, string_from_chars, text_lines, to_lowercase, trim, trim_chars};
use vstd::prelude::*;

verus! {

/// Whether a trimmed line of a paths file names a path: it is not empty and
/// not a comment.
pub open spec fn names_path(t: Seq<char>) -> bool {
    t.len() > 0 && t[0] != '#'
}

/// Whether `x` is one of the paths: a given path or a line of the paths
/// file, trimmed and not empty (a line that is not a comment).
pub open spec fn wanted_path(cli: Seq<Seq<char>>, file: Option<Seq<char>>, x: Seq<char>) -> bool {
    (x.len() > 0 && given_path(cli, x)) || match file {
        Some(t) => names_path(x) && listed_path(t, x),
        None => false,
    }
}

/// Whether `x` is a given path, trimmed.
pub open spec fn given_path(cli: Seq<Seq<char>>, x: Seq<char>) -> bool {
    exists|i: int| 0 <= i < cli.len() && trim(#[trigger] cli[i]) == x
}

/// Whether `x` is a line of the text, trimmed.
pub open spec fn listed_path(t: Seq<char>, x: Seq<char>) -> bool {
    exists|j: int| 0 <= j < text_lines(t).len() && trim(#[trigger] text_lines(t)[j]) == x
}

pub open spec fn strings_view(v: Seq<String>) -> Seq<Seq<char>> {
    v.map_values(|s: String| s@)
}

/// Adds the trimmed texts of `items` that `accept` takes to sorted `keys`.
fn add_trimmed(keys: &mut Vec<Vec<char>>, items: &Vec<Vec<char>>, comments: bool)
    requires
        strictly_sorted(keys_view(old(keys)@)),
    ensures
        strictly_sorted(keys_view(final(keys)@)),
        forall|x: Seq<char>|
            #[trigger] keys_view(final(keys)@).contains(x) <==> (keys_view(old(keys)@).contains(x) || (x.len() > 0
                && (comments ==> x[0] != '#') && exists|i: int| 0 <= i < items@.len() && trim(items@[i]@) == x)),
{
    let ghost start = keys_view(keys@);
    let n = items.len();
    for i in 0..n
        invariant
            n == items@.len(),
            start == keys_view(old(keys)@),
            strictly_sorted(keys_view(keys@)),
            forall|x: Seq<char>|
                #[trigger] keys_view(keys@).contains(x) <==> (start.contains(x) || (x.len() > 0 && (comments
                    ==> x[0] != '#') && exists|k: int| 0 <= k < i && trim(items@[k]@) == x)),
    {
        let t = trim_chars(items[i].as_slice());
        let ghost before = keys_view(keys@);
        let ghost keys_before = *keys;
        let ghost tv = t@;
        let accept = t.len() > 0 && (!comments || t[0] != '#');
        if accept {
            insert_sorted(keys, t);
        }
        assert forall|x: Seq<char>|
            keys_view(keys@).contains(x) <==> (start.contains(x) || (x.len() > 0 && (comments ==> x[0] != '#')
                && exists|k: int| 0 <= k < i + 1 && trim(items@[k]@) == x)) by {
            assert(before == keys_view(keys_before@));
            if exists|k: int| 0 <= k < i + 1 && trim(items@[k]@) == x {
                let k = choose|k: int| 0 <= k < i + 1 && trim(items@[k]@) == x;
                if k < i {
                    assert(0 <= k < i && trim(items@[k]@) == x);
                } else {
                    assert(x == tv);
                }
            }
            if exists|k: int| 0 <= k < i && trim(items@[k]@) == x {
                let k = choose|k: int| 0 <= k < i && trim(items@[k]@) == x;
                assert(0 <= k < i + 1 && trim(items@[k]@) == x);
            }
            if x == tv {
                assert(0 <= i < i + 1 && trim(items@[i as int]@) == x);
            }
        }
    }
}

/// The paths a copy works on: the given paths and the lines of the paths
/// file's text (blank lines and lines starting with `#` left out), each
/// trimmed, in increasing order and without repeats.
pub fn collect_copy_paths(cli_paths: &Vec<String>, paths_file: Option<&str>) -> (res: Vec<String>)
    ensures
        strictly_sorted(strings_view(res@)),
        forall|x: Seq<char>|
            strings_view(res@).contains(x) <==> wanted_path(
                strings_view(cli_paths@),
                match paths_file {
                    Some(t) => Some(t@),
                    None => None::<Seq<char>>,
                },
                x,
            ),
{
    let mut items: Vec<Vec<char>> = Vec::new();
    let n = cli_paths.len();
    for i in 0..n
        invariant
            n == cli_paths@.len(),
            items@.len() == i,
            forall|k: int| 0 <= k < i ==> (#[trigger] items@[k])@ == cli_paths@[k]@,
    {
        items.push(chars_of(cli_paths[i].as_str()));
    }
    let mut keys: Vec<Vec<char>> = Vec::new();
    assert(keys_view(keys@) =~= Seq::<Seq<char>>::empty());
    add_trimmed(&mut keys, &items, false);
    let ghost cli = strings_view(cli_paths@);
    assert forall|x: Seq<char>|
        keys_view(keys@).contains(x) <==> (x.len() > 0 && given_path(cli, x)) by {
        if exists|i: int| 0 <= i < items@.len() && trim(items@[i]@) == x {
            let i = choose|i: int| 0 <= i < items@.len() && trim(items@[i]@) == x;
            assert(cli[i] == items@[i]@);
        }
        if exists|i: int| 0 <= i < cli.len() && trim(cli[i]) == x {
            let i = choose|i: int| 0 <= i < cli.len() && trim(cli[i]) == x;
            assert(cli[i] == items@[i]@);
        }
    }
    match paths_file {
        Some(text) => {
            let cs = chars_of(text);
            let lines = split_lines_chars(cs.as_slice());
            let ghost lv = text_lines(text@);
            assert forall|j: int| 0 <= j < lines@.len() implies lines@[j]@ == lv[j] by {
                assert(lines@.map_values(|l: Vec<char>| l@)[j] == lines@[j]@);
            }
            assert(lines@.len() == lv.len()) by {
                assert(lines@.map_values(|l: Vec<char>| l@).len() == lines@.len());
            }
            let ghost mid = keys_view(keys@);
            add_trimmed(&mut keys, &lines, true);
            assert forall|x: Seq<char>|
                keys_view(keys@).contains(x) <==> wanted_path(cli, Some(text@), x) by {
                assert(mid.contains(x) <==> (x.len() > 0 && given_path(cli, x)));
                assert(keys_view(keys@).contains(x) <==> (mid.contains(x) || (x.len() > 0 && x[0] != '#'
                    && exists|i: int| 0 <= i < lines@.len() && trim(lines@[i]@) == x)));
                let in_lines = exists|i: int| 0 <= i < lines@.len() && trim(lines@[i]@) == x;
                let in_text = exists|j: int| 0 <= j < text_lines(text@).len() && trim(#[trigger] text_lines(text@)[j]) == x;
                if in_lines {
                    let i = choose|i: int| 0 <= i < lines@.len() && trim(lines@[i]@) == x;
                    assert(trim(lv[i]) == x);
                    assert(0 <= i < text_lines(text@).len() && trim(text_lines(text@)[i]) == x);
                }
                if in_text {
                    let j = choose|j: int| 0 <= j < text_lines(text@).len() && trim(#[trigger] text_lines(text@)[j]) == x;
                    assert(trim(lines@[j]@) == x);
                }
                assert(in_lines == in_text);
                assert(in_text == listed_path(text@, x));
            }
        },
        None => {},
    }
    let mut out: Vec<String> = Vec::new();
    let m = keys.len();
    for i in 0..m
        invariant
            m == keys@.len(),
            strings_view(out@) == keys_view(keys@).take(i as int),
    {
        let s = string_from_chars(keys[i].as_slice());
        let ghost before = out@;
        out.push(s);
        assert(strings_view(out@) =~= strings_view(before).push(s@));
        assert(strings_view(out@) =~= keys_view(keys@).take(i + 1));
    }
    assert(keys_view(keys@).take(m as int) =~= keys_view(keys@));
    out
}

/// What became of one path of a copy.
#[derive(Debug, Clone, Copy, PartialEq, Eq, Structural)]
pub enum CopyItemStatus {
    Skipped,
    Missing,
    Planned,
    Copied,
    Failed,
}

/// One path of a copy, what became of it, and why.
#[derive(Debug, Clone)]
pub struct CopyItemReport {
    pub path: String,
    pub status: CopyItemStatus,
    pub detail: String,
}

/// The counts of a copy: paths copied (or planned), missing, skipped and
/// failed, out of the paths selected.
#[derive(Debug, Clone, Copy, PartialEq, Eq, Structural)]
pub struct CopySummaryReport {
    pub total_paths: usize,
    pub copied: usize,
    pub missing: usize,
    pub skipped: usize,
    pub failed: usize,
}

pub const COPY_LEFT_TO_RIGHT: &'static str = "left_to_right";
pub const COPY_RIGHT_TO_LEFT: &'static str = "right_to_left";
pub const BAD_COPY_DIRECTION: &'static str = "invalid --direction. Use: left_to_right, right_to_left";
pub const UNSAFE_PATH_DETAIL: &'static str = "Invalid relative path (must not be absolute or contain '..')";
pub const MISSING_SOURCE_DETAIL: &'static str = "Source path does not exist";
pub const COPIED_DETAIL: &'static str = "Copied successfully";
pub const PLANNED_OPEN: &'static str = "Would copy ";
pub const PLANNED_ARROW: &'static str = " -> ";

/// The name of a status in reports.
pub fn status_label(s: CopyItemStatus) -> (res: &'static str)
    ensures
        res@ == match s {
            CopyItemStatus::Skipped => "skipped"@,
            CopyItemStatus::Missing => "missing"@,
            CopyItemStatus::Planned => "planned"@,
            CopyItemStatus::Copied => "copied"@,
            CopyItemStatus::Failed => "failed"@,
        },
{
    match s {
        CopyItemStatus::Skipped => "skipped",
        CopyItemStatus::Missing => "missing",
        CopyItemStatus::Planned => "planned",
        CopyItemStatus::Copied => "copied",
        CopyItemStatus::Failed => "failed",
    }
}

/// The direction of a copy, given in any case: `Ok(true)` from left to
/// right, `Ok(false)` from right to left, and the direction in lowercase
/// beside it; an error for any other name.
pub fn copy_direction(direction: &str) -> (res: Result<(bool, String), String>)
    ensures
        lowercase_of(direction@) == COPY_LEFT_TO_RIGHT@ ==> (res matches Ok((true, d)) && d@ == COPY_LEFT_TO_RIGHT@),
        lowercase_of(direction@) == COPY_RIGHT_TO_LEFT@ ==> (res matches Ok((false, d)) && d@ == COPY_RIGHT_TO_LEFT@),
        lowercase_of(direction@) != COPY_LEFT_TO_RIGHT@ && lowercase_of(direction@) != COPY_RIGHT_TO_LEFT@
            ==> (res matches Err(m) && m@ == BAD_COPY_DIRECTION@),
{
    proof {
        reveal_strlit("left_to_right");
        reveal_strlit("right_to_left");
        assert(COPY_LEFT_TO_RIGHT@[0] != COPY_RIGHT_TO_LEFT@[0]);
    }
    let d = to_lowercase(direction);
    if same_text(d.as_str(), COPY_LEFT_TO_RIGHT) {
        Ok((true, d))
    } else if same_text(d.as_str(), COPY_RIGHT_TO_LEFT) {
        Ok((false, d))
    } else {
        Err(string_from_chars(chars_of(BAD_COPY_DIRECTION).as_slice()))
    }
}

/// A report of `rel` with this status and detail.
fn item(rel: &str, status: CopyItemStatus, detail: &str) -> (res: CopyItemReport)
    ensures
        res.path@ == rel@,
        res.status == status,
        res.detail@ == detail@,
{
    CopyItemReport {
        path: string_from_chars(chars_of(rel).as_slice()),
        status,
        detail: string_from_chars(chars_of(detail).as_slice()),
    }
}

/// The first look at a selected path: an absolute path or one that climbs
/// out of its root is skipped; others go on (`None`).
pub fn check_copy_path(rel: &str) -> (res: Option<CopyItemReport>)
    ensures
        safe_relative(rel@) ==> res is None,
        !safe_relative(rel@) ==> (res matches Some(r) && r.path@ == rel@ && r.status == CopyItemStatus::Skipped
            && r.detail@ == UNSAFE_PATH_DETAIL@),
{
    if is_safe_relative_path(rel) {
        None
    } else {
        Some(item(rel, CopyItemStatus::Skipped, UNSAFE_PATH_DETAIL))
    }
}

/// After checking whether the source of `rel` exists: a missing source is
/// reported; a dry run reports the copy it would make from `source` to
/// `target`; otherwise the copy is made (`None`).
pub fn after_source_check(rel: &str, source_exists: bool, dry_run: bool, source: &str, target: &str) -> (res: Option<CopyItemReport>)
    ensures
        !source_exists ==> (res matches Some(r) && r.path@ == rel@ && r.status == CopyItemStatus::Missing
            && r.detail@ == MISSING_SOURCE_DETAIL@),
        source_exists && dry_run ==> (res matches Some(r) && r.path@ == rel@ && r.status == CopyItemStatus::Planned
            && r.detail@ == PLANNED_OPEN@ + source@ + PLANNED_ARROW@ + target@),
        source_exists && !dry_run ==> res is None,
{
    if !source_exists {
        Some(item(rel, CopyItemStatus::Missing, MISSING_SOURCE_DETAIL))
    } else if dry_run {
        let mut d = concat_str(PLANNED_OPEN, source);
        push_str(&mut d, PLANNED_ARROW);
        push_str(&mut d, target);
        Some(CopyItemReport {
            path: string_from_chars(chars_of(rel).as_slice()),
            status: CopyItemStatus::Planned,
            detail: d,
        })
    } else {
        None
    }
}

/// The report of a copy made of `rel`: copied, or failed with the error.
pub fn copy_outcome(rel: &str, outcome: Result<(), String>) -> (res: CopyItemReport)
    ensures
        res.path@ == rel@,
        outcome is Ok ==> res.status == CopyItemStatus::Copied && res.detail@ == COPIED_DETAIL@,
        outcome matches Err(e) ==> res.status == CopyItemStatus::Failed && res.detail@ == e@,
{
    match outcome {
        Ok(()) => item(rel, CopyItemStatus::Copied, COPIED_DETAIL),
        Err(e) => CopyItemReport { path: string_from_chars(chars_of(rel).as_slice()), status: CopyItemStatus::Failed, detail: e },
    }
}

/// How many paths a copy summary has counted.
pub open spec fn copy_counted(s: CopySummaryReport) -> int {
    s.copied + s.missing + s.skipped + s.failed
}

impl CopySummaryReport {
    /// A summary of `total_paths` selected paths, none counted yet.
    pub fn for_paths(total_paths: usize) -> (res: Self)
        ensures
            res.total_paths == total_paths,
            copy_counted(res) == 0,
            res.copied == 0 && res.missing == 0 && res.skipped == 0 && res.failed == 0,
    {
        CopySummaryReport { total_paths, copied: 0, missing: 0, skipped: 0, failed: 0 }
    }

    /// Counts a path by its status; a planned path counts as copied.
    pub fn record(&mut self, status: CopyItemStatus)
        requires
            copy_counted(*old(self)) < old(self).total_paths,
        ensures
            final(self).total_paths == old(self).total_paths,
            final(self).copied == old(self).copied + if status == CopyItemStatus::Planned || status
                == CopyItemStatus::Copied { 1int } else { 0int },
            final(self).missing == old(self).missing + if status == CopyItemStatus::Missing { 1int } else { 0int },
            final(self).skipped == old(self).skipped + if status == CopyItemStatus::Skipped { 1int } else { 0int },
            final(self).failed == old(self).failed + if status == CopyItemStatus::Failed { 1int } else { 0int },
    {
        match status {
            CopyItemStatus::Planned | CopyItemStatus::Copied => self.copied = self.copied + 1,
            CopyItemStatus::Missing => self.missing = self.missing + 1,
            CopyItemStatus::Skipped => self.skipped = self.skipped + 1,
            CopyItemStatus::Failed => self.failed = self.failed + 1,
        }
    }
}

} // verus!
