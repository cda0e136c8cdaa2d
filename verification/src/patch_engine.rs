//! Applying and unapplying the differences of a file patch, blending the
//! original file into the model, and rebuilding the destination text.

use crate::error::RCompareError;
use crate::patch_types::{
    change_positions, change_positions_upto, hunk_change_positions, lines_view, DifferenceModel,
    DifferenceType, FilePatch, FilePatchModel, Hunk, HunkModel, PatchDifference,
};
use crate::patch_serializer::same_but_conflicts;
use crate::text::{decimal, push_decimal, push_str, same_text, string_push};
use vstd::prelude::*;

verus! {

/// Opening of the message for a difference index out of range.
pub const INDEX_MESSAGE_OPEN: &'static str = "Difference index ";

/// Middle of the message for a difference index out of range.
pub const INDEX_MESSAGE_MID: &'static str = " out of range (count: ";

/// The message for difference index `i` out of range among `count`.
pub open spec fn index_message(i: nat, count: nat) -> Seq<char> {
    INDEX_MESSAGE_OPEN@ + decimal(i) + INDEX_MESSAGE_MID@ + decimal(count) + seq![')']
}

/// `d` with its applied and unsaved flags flipped.
pub open spec fn toggled(d: DifferenceModel) -> DifferenceModel {
    DifferenceModel { applied: !d.applied, unsaved: !d.unsaved, ..d }
}

/// `hunks` with difference `di` of hunk `hi` toggled.
pub open spec fn toggle_at(hunks: Seq<HunkModel>, hi: int, di: int) -> Seq<HunkModel> {
    hunks.update(
        hi,
        HunkModel {
            differences: hunks[hi].differences.update(di, toggled(hunks[hi].differences[di])),
            ..hunks[hi]
        },
    )
}

/// A tracking line number moved by `delta`, stopping at zero.
pub open spec fn shift_tracking(t: usize, delta: int) -> usize {
    if t + delta >= 0 {
        (t + delta) as usize
    } else {
        0
    }
}

/// `d` with its tracking line moved by `delta` when it lies after
/// destination line `after`.
pub open spec fn shifted(d: DifferenceModel, after: usize, delta: int) -> DifferenceModel {
    if d.dest_line_no > after {
        DifferenceModel { tracking_dest_line_no: shift_tracking(d.tracking_dest_line_no, delta), ..d }
    } else {
        d
    }
}

/// `h` with the tracking lines of its differences after `after` moved by `delta`.
pub open spec fn shifted_hunk(h: HunkModel, after: usize, delta: int) -> HunkModel {
    HunkModel { differences: h.differences.map_values(|d: DifferenceModel| shifted(d, after, delta)), ..h }
}

/// The hunks with the tracking lines after `after` moved by `delta`.
pub open spec fn shift_hunks(hunks: Seq<HunkModel>, after: usize, delta: int) -> Seq<HunkModel> {
    hunks.map_values(|h: HunkModel| shifted_hunk(h, after, delta))
}

/// Moving the tracking lines after `after` by `delta` stays within `usize`.
pub open spec fn shift_fits(hunks: Seq<HunkModel>, after: usize, delta: int) -> bool {
    forall|h: int, d: int|
        0 <= h < hunks.len() && 0 <= d < hunks[h].differences.len()
            && #[trigger] hunks[h].differences[d].dest_line_no > after
            ==> hunks[h].differences[d].tracking_dest_line_no + delta <= usize::MAX
}

/// Destination lines minus source lines of `d`.
pub open spec fn line_delta(d: DifferenceModel) -> int {
    d.dest_lines.len() - d.source_lines.len()
}

/// The difference at flat index `i` among the non-unchanged differences.
pub open spec fn target(p: FilePatchModel, i: int) -> DifferenceModel {
    let pos = change_positions(p.hunks)[i];
    p.hunks[pos.0 as int].differences[pos.1 as int]
}

/// The patch after applying the difference at flat index `i`, which is in
/// range: unchanged when it is already applied; else it is marked applied,
/// its unsaved flag flips, the applied count grows by one and the tracking
/// lines after it move by its line delta.
pub open spec fn apply_model(p: FilePatchModel, i: int) -> FilePatchModel {
    let pos = change_positions(p.hunks)[i];
    let d = target(p, i);
    if d.applied {
        p
    } else {
        FilePatchModel {
            hunks: shift_hunks(toggle_at(p.hunks, pos.0 as int, pos.1 as int), d.dest_line_no, line_delta(d)),
            applied_count: (p.applied_count + 1) as usize,
            ..p
        }
    }
}

/// The patch after unapplying the difference at flat index `i`, which is in
/// range: unchanged when it is not applied; else it is marked unapplied, its
/// unsaved flag flips, the applied count drops by one (not below zero) and
/// the tracking lines after it move back by its line delta, stopping at zero.
pub open spec fn unapply_model(p: FilePatchModel, i: int) -> FilePatchModel {
    let pos = change_positions(p.hunks)[i];
    let d = target(p, i);
    if !d.applied {
        p
    } else {
        FilePatchModel {
            hunks: shift_hunks(toggle_at(p.hunks, pos.0 as int, pos.1 as int), d.dest_line_no, -line_delta(d)),
            applied_count: if p.applied_count > 0 {
                (p.applied_count - 1) as usize
            } else {
                0
            },
            ..p
        }
    }
}

/// Applying difference `i` does not overflow: when it would change the
/// patch, the applied count and the moved tracking lines fit in `usize`.
pub open spec fn apply_fits(p: FilePatchModel, i: int) -> bool {
    0 <= i < change_positions(p.hunks).len() && !target(p, i).applied ==> {
        &&& p.applied_count < usize::MAX
        &&& shift_fits(p.hunks, target(p, i).dest_line_no, line_delta(target(p, i)))
    }
}

/// Unapplying difference `i` does not overflow.
pub open spec fn unapply_fits(p: FilePatchModel, i: int) -> bool {
    0 <= i < change_positions(p.hunks).len() && target(p, i).applied ==> shift_fits(
        p.hunks,
        target(p, i).dest_line_no,
        -line_delta(target(p, i)),
    )
}

/// Two hunk lists with the same hunks and difference types, position by position.
pub open spec fn same_shape(a: Seq<HunkModel>, b: Seq<HunkModel>) -> bool {
    &&& a.len() == b.len()
    &&& forall|h: int| 0 <= h < a.len() ==> #[trigger] a[h].differences.len() == b[h].differences.len()
    &&& forall|h: int, d: int|
        0 <= h < a.len() && 0 <= d < a[h].differences.len() ==> #[trigger] a[h].differences[d].diff_type
            == b[h].differences[d].diff_type
}

proof fn lemma_hunk_positions_shape(h: int, a: Seq<DifferenceModel>, b: Seq<DifferenceModel>, n: int)
    requires
        0 <= n <= a.len(),
        a.len() == b.len(),
        forall|d: int| 0 <= d < a.len() ==> #[trigger] a[d].diff_type == b[d].diff_type,
    ensures
        hunk_change_positions(h, a, n) == hunk_change_positions(h, b, n),
    decreases n,
{
    if n > 0 {
        lemma_hunk_positions_shape(h, a, b, n - 1);
        assert(a[n - 1].diff_type == b[n - 1].diff_type);
    }
}

proof fn lemma_positions_upto_shape(a: Seq<HunkModel>, b: Seq<HunkModel>, n: int)
    requires
        0 <= n <= a.len(),
        same_shape(a, b),
    ensures
        change_positions_upto(a, n) == change_positions_upto(b, n),
    decreases n,
{
    if n > 0 {
        lemma_positions_upto_shape(a, b, n - 1);
        assert(a[n - 1].differences.len() == b[n - 1].differences.len());
        assert forall|d: int| 0 <= d < a[n - 1].differences.len() implies #[trigger] a[n
            - 1].differences[d].diff_type == b[n - 1].differences[d].diff_type by {
            assert(a[n - 1].differences[d].diff_type == b[n - 1].differences[d].diff_type);
        }
        lemma_hunk_positions_shape(
            n - 1,
            a[n - 1].differences,
            b[n - 1].differences,
            a[n - 1].differences.len() as int,
        );
    }
}

/// Hunk lists of the same shape have the same difference positions.
pub proof fn lemma_positions_shape(a: Seq<HunkModel>, b: Seq<HunkModel>)
    requires
        same_shape(a, b),
    ensures
        change_positions(a) == change_positions(b),
{
    lemma_positions_upto_shape(a, b, a.len() as int);
}

proof fn lemma_hunk_positions_valid(h: int, diffs: Seq<DifferenceModel>, n: int)
    requires
        0 <= h <= usize::MAX,
        0 <= n <= diffs.len(),
        n <= usize::MAX + 1,
    ensures
        forall|k: int|
            0 <= k < hunk_change_positions(h, diffs, n).len() ==> {
                let p = #[trigger] hunk_change_positions(h, diffs, n)[k];
                &&& p.0 == h
                &&& 0 <= p.1 < n
                &&& diffs[p.1 as int].diff_type != DifferenceType::Unchanged
            },
    decreases n,
{
    if n > 0 {
        lemma_hunk_positions_valid(h, diffs, n - 1);
    }
}

proof fn lemma_positions_upto_valid(hunks: Seq<HunkModel>, n: int)
    requires
        0 <= n <= hunks.len(),
        n <= usize::MAX + 1,
        forall|h: int| 0 <= h < hunks.len() ==> #[trigger] hunks[h].differences.len() <= usize::MAX,
    ensures
        forall|k: int|
            0 <= k < change_positions_upto(hunks, n).len() ==> {
                let p = #[trigger] change_positions_upto(hunks, n)[k];
                &&& 0 <= p.0 < n
                &&& 0 <= p.1 < hunks[p.0 as int].differences.len()
                &&& hunks[p.0 as int].differences[p.1 as int].diff_type != DifferenceType::Unchanged
            },
    decreases n,
{
    if n > 0 {
        lemma_positions_upto_valid(hunks, n - 1);
        let prev = change_positions_upto(hunks, n - 1);
        let last = hunk_change_positions(
            n - 1,
            hunks[n - 1].differences,
            hunks[n - 1].differences.len() as int,
        );
        lemma_hunk_positions_valid(n - 1, hunks[n - 1].differences, hunks[n - 1].differences.len() as int);
        assert forall|k: int| 0 <= k < change_positions_upto(hunks, n).len() implies {
            let p = #[trigger] change_positions_upto(hunks, n)[k];
            &&& 0 <= p.0 < n
            &&& 0 <= p.1 < hunks[p.0 as int].differences.len()
            &&& hunks[p.0 as int].differences[p.1 as int].diff_type != DifferenceType::Unchanged
        } by {
            if k < prev.len() {
                assert(change_positions_upto(hunks, n)[k] == prev[k]);
            } else {
                assert(change_positions_upto(hunks, n)[k] == last[k - prev.len()]);
            }
        }
    }
}

/// Every recorded position names a difference of the patch that is not
/// unchanged context.
pub proof fn lemma_positions_valid(hunks: Seq<HunkModel>, k: int)
    requires
        hunks.len() <= usize::MAX,
        forall|h: int| 0 <= h < hunks.len() ==> #[trigger] hunks[h].differences.len() <= usize::MAX,
        0 <= k < change_positions(hunks).len(),
    ensures
        0 <= change_positions(hunks)[k].0 < hunks.len(),
        0 <= change_positions(hunks)[k].1 < hunks[change_positions(hunks)[k].0 as int].differences.len(),
        hunks[change_positions(hunks)[k].0 as int].differences[change_positions(hunks)[k].1 as int].diff_type
            != DifferenceType::Unchanged,
{
    lemma_positions_upto_valid(hunks, hunks.len() as int);
    assert(change_positions(hunks)[k] == change_positions_upto(hunks, hunks.len() as int)[k]);
}

/// Toggling and moving tracking lines keep the shape of the hunks.
pub proof fn lemma_toggle_shift_shape(hunks: Seq<HunkModel>, hi: int, di: int, after: usize, delta: int)
    requires
        0 <= hi < hunks.len(),
        0 <= di < hunks[hi].differences.len(),
    ensures
        same_shape(hunks, shift_hunks(toggle_at(hunks, hi, di), after, delta)),
{
    let b = shift_hunks(toggle_at(hunks, hi, di), after, delta);
    assert forall|h: int| 0 <= h < hunks.len() implies #[trigger] hunks[h].differences.len()
        == b[h].differences.len() by {}
    assert forall|h: int, d: int| 0 <= h < hunks.len() && 0 <= d < hunks[h].differences.len() implies #[trigger] hunks[h].differences[d].diff_type
        == b[h].differences[d].diff_type by {
        if h == hi {
            if d == di {
            } else {
            }
        }
    }
}

/// Unapplying a difference right after applying it gives back the patch
/// that had it unapplied, as long as moving the tracking lines back did not
/// stop at zero.
pub proof fn lemma_unapply_after_apply(p: FilePatchModel, i: int)
    requires
        p.hunks.len() <= usize::MAX,
        forall|h: int| 0 <= h < p.hunks.len() ==> #[trigger] p.hunks[h].differences.len() <= usize::MAX,
        0 <= i < change_positions(p.hunks).len(),
        !target(p, i).applied,
        apply_fits(p, i),
        forall|h: int, d: int|
            0 <= h < p.hunks.len() && 0 <= d < p.hunks[h].differences.len()
                && #[trigger] p.hunks[h].differences[d].dest_line_no > target(p, i).dest_line_no
                ==> p.hunks[h].differences[d].tracking_dest_line_no + line_delta(target(p, i)) >= 0,
    ensures
        unapply_model(apply_model(p, i), i) == p,
{
    let pos = change_positions(p.hunks)[i];
    let (hi, di) = (pos.0 as int, pos.1 as int);
    lemma_positions_valid(p.hunks, i);
    let d = target(p, i);
    let q = apply_model(p, i);
    lemma_toggle_shift_shape(p.hunks, hi, di, d.dest_line_no, line_delta(d));
    lemma_positions_shape(p.hunks, q.hunks);
    let e = target(q, i);
    assert(e == shifted(toggled(d), d.dest_line_no, line_delta(d)));
    assert(e == toggled(d));
    let r = unapply_model(q, i);
    assert(r.hunks.len() == p.hunks.len());
    assert forall|h: int| 0 <= h < p.hunks.len() implies #[trigger] r.hunks[h] == p.hunks[h] by {
        assert(r.hunks[h].differences =~= p.hunks[h].differences);
    }
    assert(r.hunks =~= p.hunks);
}

/// Applying a difference twice is the same as applying it once.
pub proof fn lemma_apply_idempotent(p: FilePatchModel, i: int)
    requires
        p.hunks.len() <= usize::MAX,
        forall|h: int| 0 <= h < p.hunks.len() ==> #[trigger] p.hunks[h].differences.len() <= usize::MAX,
        0 <= i < change_positions(p.hunks).len(),
    ensures
        apply_model(apply_model(p, i), i) == apply_model(p, i),
{
    let pos = change_positions(p.hunks)[i];
    lemma_positions_valid(p.hunks, i);
    let d = target(p, i);
    if !d.applied {
        lemma_toggle_shift_shape(p.hunks, pos.0 as int, pos.1 as int, d.dest_line_no, line_delta(d));
        lemma_positions_shape(p.hunks, apply_model(p, i).hunks);
    }
}

/// The hunk and difference lists of a file patch fit in `usize`.
pub proof fn lemma_patch_dims(p: &FilePatch)
    ensures
        p@.hunks.len() <= usize::MAX,
        forall|h: int| 0 <= h < p@.hunks.len() ==> #[trigger] p@.hunks[h].differences.len() <= usize::MAX,
{
    assert(p@.hunks.len() == p.hunks.len());
    assert forall|h: int| 0 <= h < p@.hunks.len() implies #[trigger] p@.hunks[h].differences.len() <= usize::MAX by {
        assert(p@.hunks[h].differences.len() == p.hunks@[h].differences.len());
    }
}

/// `d` marked applied, with its unsaved flag flipped, when it is a change
/// that is not applied yet.
pub open spec fn applied_all(d: DifferenceModel) -> DifferenceModel {
    if d.diff_type != DifferenceType::Unchanged && !d.applied {
        toggled(d)
    } else {
        d
    }
}

/// `d` marked unapplied, with its unsaved flag flipped, when it is an
/// applied change.
pub open spec fn unapplied_all(d: DifferenceModel) -> DifferenceModel {
    if d.diff_type != DifferenceType::Unchanged && d.applied {
        toggled(d)
    } else {
        d
    }
}

/// The hunks with `f` applied to every difference.
pub open spec fn map_differences(
    hunks: Seq<HunkModel>,
    f: spec_fn(DifferenceModel) -> DifferenceModel,
) -> Seq<HunkModel> {
    hunks.map_values(|h: HunkModel| HunkModel { differences: h.differences.map_values(f), ..h })
}

/// The lines of `s` from index `start` on, each with its newline kept; the
/// last line may lack one.
pub open spec fn kept_lines_from(s: Seq<char>, start: int) -> Seq<Seq<char>>
    decreases s.len() - start,
{
    if start < 0 || start >= s.len() {
        Seq::empty()
    } else {
        let e = crate::text::next_newline(s, start);
        proof {
            crate::text::lemma_next_newline_bounds(s, start);
        }
        if e < s.len() {
            seq![s.subrange(start, e + 1)] + kept_lines_from(s, e + 1)
        } else {
            seq![s.subrange(start, e)]
        }
    }
}

/// The lines of `s`, each with its newline kept.
pub open spec fn kept_lines(s: Seq<char>) -> Seq<Seq<char>> {
    kept_lines_from(s, 0)
}

/// A hunk of original file context added by blending: one unchanged
/// difference holding `lines` on both sides, at source line `src` and
/// destination line `dst`.
pub open spec fn blend_hunk(src: usize, dst: usize, lines: Seq<Seq<char>>) -> HunkModel {
    HunkModel {
        source_start: src,
        source_count: lines.len() as usize,
        dest_start: dst,
        dest_count: lines.len() as usize,
        function_name: None,
        hunk_type: crate::patch_types::HunkType::AddedByBlend,
        differences: seq![
            DifferenceModel {
                source_lines: lines,
                dest_lines: lines,
                ..crate::patch_types::new_difference(DifferenceType::Unchanged, src, dst)
            },
        ],
    }
}

/// `a` or `b`, whichever is smaller.
pub open spec fn min_int(a: int, b: int) -> int {
    if a <= b {
        a
    } else {
        b
    }
}

/// Whether the file lines from index `at` on begin with `src`.
pub open spec fn source_matches(lines: Seq<Seq<char>>, at: int, src: Seq<Seq<char>>) -> bool {
    0 <= at && at + src.len() <= lines.len() && lines.subrange(at, at + src.len()) == src
}

/// How many source lines the first `j` differences hold together.
pub open spec fn source_offset(ds: Seq<DifferenceModel>, j: int) -> int
    decreases j,
{
    if j <= 0 {
        0
    } else {
        source_offset(ds, j - 1) + ds[j - 1].source_lines.len()
    }
}

/// Difference `j` of a hunk whose source lines begin at file line index
/// `at`, marked as a conflict exactly when its source lines are not the
/// file's lines at its place.
pub open spec fn checked_difference(ds: Seq<DifferenceModel>, lines: Seq<Seq<char>>, at: int, j: int) -> DifferenceModel {
    DifferenceModel { conflict: !source_matches(lines, at + source_offset(ds, j), ds[j].source_lines), ..ds[j] }
}

/// A parsed hunk placed at file line index `at`, each difference marked as
/// a conflict exactly when its source lines do not match the file there.
pub open spec fn checked_hunk(h: HunkModel, lines: Seq<Seq<char>>, at: int) -> HunkModel {
    HunkModel {
        differences: Seq::new(h.differences.len(), |j: int| checked_difference(h.differences, lines, at, j)),
        ..h
    }
}

/// The hunks from `k` on blended with the file lines from `idx` on, where
/// the next file line is source line `src` and destination line `dst`.
/// Before a hunk that starts after `src`, a blend hunk takes the file lines
/// up to that start (as many as are left); the hunk itself follows and
/// passes over its source count of file lines (as many as are left), with
/// each of its differences marked as a conflict exactly when its source
/// lines are not the file's lines at its place, while the line numbers move
/// by its counts. After the last hunk, a blend hunk
/// takes the file lines that are left, if any.
pub open spec fn blend_from(
    hunks: Seq<HunkModel>,
    k: int,
    lines: Seq<Seq<char>>,
    src: usize,
    dst: usize,
    idx: int,
) -> Seq<HunkModel>
    decreases hunks.len() - k,
{
    if k < 0 || k >= hunks.len() {
        if 0 <= idx < lines.len() {
            seq![blend_hunk(src, dst, lines.subrange(idx, lines.len() as int))]
        } else {
            Seq::empty()
        }
    } else {
        let h = hunks[k];
        let gap = src < h.source_start;
        let take = if gap {
            min_int(h.source_start - src, lines.len() - idx)
        } else {
            0
        };
        let pre = if gap {
            seq![blend_hunk(src, dst, lines.subrange(idx, idx + take))]
        } else {
            Seq::empty()
        };
        let src1 = (src + take) as usize;
        let dst1 = dst.wrapping_add(take as usize);
        let idx1 = idx + take;
        let advance = min_int(h.source_count as int, lines.len() - idx1);
        pre + seq![checked_hunk(h, lines, idx1)] + blend_from(
            hunks,
            k + 1,
            lines,
            src1.wrapping_add(h.source_count),
            dst1.wrapping_add(h.dest_count),
            idx1 + advance,
        )
    }
}

/// The lines of a list, one after the other.
pub open spec fn joined(lines: Seq<Seq<char>>) -> Seq<char>
    decreases lines.len(),
{
    if lines.len() == 0 {
        Seq::empty()
    } else {
        joined(lines.drop_last()) + lines.last()
    }
}

/// The text a difference contributes to the destination: its source lines
/// when applied (shown as the original), else its destination lines.
pub open spec fn difference_output(d: DifferenceModel) -> Seq<char> {
    if d.applied {
        joined(d.source_lines)
    } else {
        joined(d.dest_lines)
    }
}

/// The text of a list of differences.
pub open spec fn differences_output(ds: Seq<DifferenceModel>) -> Seq<char>
    decreases ds.len(),
{
    if ds.len() == 0 {
        Seq::empty()
    } else {
        differences_output(ds.drop_last()) + difference_output(ds.last())
    }
}

/// The text of a list of hunks.
pub open spec fn hunks_output(hs: Seq<HunkModel>) -> Seq<char>
    decreases hs.len(),
{
    if hs.len() == 0 {
        Seq::empty()
    } else {
        hunks_output(hs.drop_last()) + differences_output(hs.last().differences)
    }
}

/// Marks every change of `h` applied (flipping unsaved on those that were
/// not applied yet) and counts those.
fn apply_hunk_all(h: &mut Hunk, Ghost(hi): Ghost<int>) -> (count: usize)
    ensures
        final(h)@ == (HunkModel { differences: old(h)@.differences.map_values(|d: DifferenceModel| applied_all(d)), ..old(h)@ }),
        count == hunk_change_positions(hi, old(h)@.differences, old(h)@.differences.len() as int).len(),
{
    let ghost orig = h@;
    let n = h.differences.len();
    let mut count: usize = 0;
    for k in 0..n
        invariant
            n == h.differences@.len(),
            n == orig.differences.len(),
            h@ == (HunkModel { differences: h@.differences, ..orig }),
            forall|d: int| 0 <= d < k ==> #[trigger] h@.differences[d] == applied_all(orig.differences[d]),
            forall|d: int| k <= d < n ==> #[trigger] h@.differences[d] == orig.differences[d],
            count == hunk_change_positions(hi, orig.differences, k as int).len(),
            count <= k,
    {
        assert(h@.differences[k as int] == h.differences@[k as int]@);
        let ghost prev = h@.differences;
        if h.differences[k].diff_type != DifferenceType::Unchanged {
            if !h.differences[k].applied {
                toggle(&mut h.differences[k]);
            }
            count = count + 1;
        }
        assert(h@.differences =~= prev.update(k as int, applied_all(orig.differences[k as int])));
    }
    assert(h@.differences =~= orig.differences.map_values(|d: DifferenceModel| applied_all(d)));
    count
}

/// Marks every applied change of `h` unapplied, flipping its unsaved flag.
fn unapply_hunk_all(h: &mut Hunk)
    ensures
        final(h)@ == (HunkModel { differences: old(h)@.differences.map_values(|d: DifferenceModel| unapplied_all(d)), ..old(h)@ }),
{
    let ghost orig = h@;
    let n = h.differences.len();
    for k in 0..n
        invariant
            n == h.differences@.len(),
            n == orig.differences.len(),
            h@ == (HunkModel { differences: h@.differences, ..orig }),
            forall|d: int| 0 <= d < k ==> #[trigger] h@.differences[d] == unapplied_all(orig.differences[d]),
            forall|d: int| k <= d < n ==> #[trigger] h@.differences[d] == orig.differences[d],
    {
        assert(h@.differences[k as int] == h.differences@[k as int]@);
        let ghost prev = h@.differences;
        if h.differences[k].diff_type != DifferenceType::Unchanged && h.differences[k].applied {
            toggle(&mut h.differences[k]);
        }
        assert(h@.differences =~= prev.update(k as int, unapplied_all(orig.differences[k as int])));
    }
    assert(h@.differences =~= orig.differences.map_values(|d: DifferenceModel| unapplied_all(d)));
}

/// Split file content into lines, keeping each line's newline.
pub fn split_lines(content: &str) -> (res: Vec<String>)
    ensures
        lines_view(res@) == kept_lines(content@),
{
    let cs = crate::text::chars_of(content);
    let n = cs.len();
    let mut res: Vec<String> = Vec::new();
    let mut start: usize = 0;
    let mut j: usize = 0;
    while j < n
        invariant
            n == cs@.len(),
            cs@ == content@,
            start <= j <= n,
            crate::text::next_newline(cs@, start as int) == crate::text::next_newline(cs@, j as int),
            lines_view(res@) + kept_lines_from(cs@, start as int) == kept_lines(cs@),
        decreases n - j,
    {
        if cs[j] == '\n' {
            let piece = crate::text::slice_chars(cs.as_slice(), start, j + 1);
            let line = crate::text::string_from_chars(piece.as_slice());
            proof {
                assert(crate::text::next_newline(cs@, j as int) == j);
                assert(kept_lines_from(cs@, start as int) == seq![cs@.subrange(start as int, j + 1)]
                    + kept_lines_from(cs@, j + 1));
                crate::patch_parser::lemma_lines_push(res@, line);
                assert(lines_view(res@.push(line)) + kept_lines_from(cs@, j + 1) =~= lines_view(res@)
                    + kept_lines_from(cs@, start as int));
            }
            res.push(line);
            start = j + 1;
            j = j + 1;
        } else {
            j = j + 1;
        }
    }
    if start < n {
        let piece = crate::text::slice_chars(cs.as_slice(), start, n);
        let line = crate::text::string_from_chars(piece.as_slice());
        proof {
            assert(crate::text::next_newline(cs@, n as int) == n);
            assert(kept_lines_from(cs@, start as int) == seq![cs@.subrange(start as int, n as int)]);
            crate::patch_parser::lemma_lines_push(res@, line);
            assert(lines_view(res@.push(line)) =~= lines_view(res@) + kept_lines_from(cs@, start as int));
        }
        res.push(line);
    } else {
        assert(lines_view(res@) + Seq::<Seq<char>>::empty() =~= lines_view(res@));
    }
    res
}

/// A copy of lines `from..to`.
fn copy_range(lines: &Vec<String>, from: usize, to: usize) -> (res: Vec<String>)
    requires
        from <= to <= lines@.len(),
    ensures
        lines_view(res@) == lines_view(lines@).subrange(from as int, to as int),
{
    let mut out: Vec<String> = Vec::new();
    let mut k = from;
    while k < to
        invariant
            from <= k <= to <= lines@.len(),
            lines_view(out@) == lines_view(lines@).subrange(from as int, k as int),
        decreases to - k,
    {
        let t = lines[k].clone();
        proof {
            crate::patch_parser::lemma_lines_push(out@, t);
        }
        out.push(t);
        assert(lines_view(out@) =~= lines_view(lines@).subrange(from as int, k + 1));
        k += 1;
    }
    out
}

/// Whether the file lines from index `at` on begin with `src`.
fn lines_match(lines: &Vec<String>, at: usize, src: &Vec<String>) -> (res: bool)
    ensures
        res == source_matches(lines_view(lines@), at as int, lines_view(src@)),
{
    let nl = lines.len();
    let m = src.len();
    if at > nl || m > nl - at {
        return false;
    }
    let ghost fl = lines_view(lines@);
    let ghost sv = lines_view(src@);
    for i in 0..m
        invariant
            m == src@.len(),
            nl == lines@.len(),
            at + m <= nl,
            fl == lines_view(lines@),
            sv == lines_view(src@),
            forall|t: int| 0 <= t < i ==> #[trigger] fl[at + t] == sv[t],
    {
        if !same_text(lines[at + i].as_str(), src[i].as_str()) {
            proof {
                assert(fl.subrange(at as int, at + m)[i as int] != sv[i as int]);
            }
            return false;
        }
    }
    assert forall|t: int| 0 <= t < m implies fl.subrange(at as int, at + m)[t] == sv[t] by {
        assert(fl[at + t] == sv[t]);
    }
    assert(fl.subrange(at as int, at + m) =~= sv);
    true
}

/// Sets the conflict flag of a difference.
fn set_conflict(d: &mut PatchDifference, c: bool)
    ensures
        final(d)@ == (DifferenceModel { conflict: c, ..old(d)@ }),
{
    d.conflict = c;
}

proof fn lemma_source_offset_grows(ds: Seq<DifferenceModel>, j: int)
    requires
        0 <= j,
    ensures
        source_offset(ds, j) <= source_offset(ds, j + 1),
        source_offset(ds, j) >= 0,
    decreases j,
{
    if j > 0 {
        lemma_source_offset_grows(ds, j - 1);
    }
}

/// A copy of a parsed hunk placed at file line index `at`, each of its
/// differences marked as a conflict exactly when its source lines are not
/// the file's lines at its place.
fn check_hunk(h: &Hunk, lines: &Vec<String>, at: usize) -> (res: Hunk)
    requires
        at <= lines@.len(),
    ensures
        res@ == checked_hunk(h@, lines_view(lines@), at as int),
{
    let mut out = h.duplicate();
    let n = out.differences.len();
    let nl = lines.len();
    let ghost ds = h@.differences;
    let ghost fl = lines_view(lines@);
    let mut pos: usize = at;
    let mut beyond = false;
    for j in 0..n
        invariant
            n == ds.len(),
            n == out.differences@.len(),
            nl == lines@.len(),
            fl == lines_view(lines@),
            ds == h@.differences,
            out@ == (HunkModel { differences: out@.differences, ..h@ }),
            !beyond ==> pos == at + source_offset(ds, j as int) && pos <= nl,
            beyond ==> at + source_offset(ds, j as int) > nl,
            forall|t: int| 0 <= t < j ==> #[trigger] out@.differences[t] == checked_difference(ds, fl, at as int, t),
            forall|t: int| j <= t < n ==> #[trigger] out@.differences[t] == ds[t],
    {
        assert(out@.differences[j as int] == out.differences@[j as int]@);
        let ghost prev = out@.differences;
        let m = out.differences[j].source_lines.len();
        proof {
            lemma_source_offset_grows(ds, j as int);
            assert(m == ds[j as int].source_lines.len());
        }
        let ok = if beyond {
            false
        } else {
            lines_match(lines, pos, &out.differences[j].source_lines)
        };
        assert(ok == source_matches(fl, at + source_offset(ds, j as int), ds[j as int].source_lines));
        set_conflict(&mut out.differences[j], !ok);
        assert(out@.differences =~= prev.update(j as int, checked_difference(ds, fl, at as int, j as int)));
        if !beyond {
            if m > nl - pos {
                beyond = true;
            } else {
                pos = pos + m;
            }
        }
    }
    assert(out@.differences =~= Seq::new(ds.len(), |t: int| checked_difference(ds, fl, at as int, t)));
    out
}

/// A blend hunk at `src`/`dst` holding lines `from..to` of the file.
fn make_blend_hunk(src: usize, dst: usize, lines: &Vec<String>, from: usize, to: usize) -> (res: Hunk)
    requires
        from <= to <= lines@.len(),
    ensures
        res@ == blend_hunk(src, dst, lines_view(lines@).subrange(from as int, to as int)),
{
    let mut blend = Hunk::new(src, dst);
    blend.hunk_type = crate::patch_types::HunkType::AddedByBlend;
    let mut diff = PatchDifference::new(DifferenceType::Unchanged, src, dst);
    diff.source_lines = copy_range(lines, from, to);
    diff.dest_lines = copy_range(lines, from, to);
    let ghost dm = diff@;
    proof {
        crate::patch_parser::lemma_diffs_push(blend.differences@, diff);
    }
    blend.differences.push(diff);
    proof {
        let ds = blend@.differences;
        assert(ds =~= seq![dm]);
        assert(crate::patch_types::source_total(ds, 0) == 0);
        assert(crate::patch_types::dest_total(ds, 0) == 0);
        assert(ds[0] == dm);
        assert(dm.source_lines.len() == to - from);
        assert(dm.dest_lines.len() == to - from);
        assert(crate::patch_types::source_total(ds, 1) == to - from);
        assert(crate::patch_types::dest_total(ds, 1) == to - from);
    }
    blend.recompute_counts();
    assert(blend@.differences =~= blend_hunk(src, dst, lines_view(lines@).subrange(from as int, to as int)).differences);
    blend
}

/// Flips the applied and unsaved flags of `d`.
fn toggle(d: &mut PatchDifference)
    ensures
        final(d)@ == toggled(old(d)@),
{
    d.applied = !d.applied;
    d.unsaved = !d.unsaved;
}

/// Moves the tracking lines after `after` of the differences of `h`, up by
/// `amount` when `grow`, else down by `amount` stopping at zero.
fn shift_hunk(h: &mut Hunk, after: usize, grow: bool, amount: usize)
    requires
        grow ==> forall|d: int|
            0 <= d < old(h)@.differences.len() && #[trigger] old(h)@.differences[d].dest_line_no > after
                ==> old(h)@.differences[d].tracking_dest_line_no + amount <= usize::MAX,
    ensures
        final(h)@ == shifted_hunk(
            old(h)@,
            after,
            if grow {
                amount as int
            } else {
                -amount
            },
        ),
{
    let ghost delta: int = if grow {
        amount as int
    } else {
        -amount
    };
    let ghost orig = h@;
    let n = h.differences.len();
    for k in 0..n
        invariant
            n == h.differences@.len(),
            n == orig.differences.len(),
            delta == if grow {
                amount as int
            } else {
                -amount
            },
            grow ==> forall|d: int|
                0 <= d < orig.differences.len() && #[trigger] orig.differences[d].dest_line_no > after
                    ==> orig.differences[d].tracking_dest_line_no + amount <= usize::MAX,
            h@ == (HunkModel { differences: h@.differences, ..orig }),
            forall|d: int| 0 <= d < k ==> #[trigger] h@.differences[d] == shifted(orig.differences[d], after, delta),
            forall|d: int| k <= d < n ==> #[trigger] h@.differences[d] == orig.differences[d],
    {
        assert(h@.differences[k as int] == h.differences@[k as int]@);
        let ghost prev = h@.differences;
        if h.differences[k].dest_line_no > after {
            let t = h.differences[k].tracking_dest_line_no;
            let nt = if grow {
                t + amount
            } else {
                t.saturating_sub(amount)
            };
            h.differences[k].tracking_dest_line_no = nt;
        }
        assert(h@.differences =~= prev.update(k as int, shifted(orig.differences[k as int], after, delta)));
    }
    assert(h@.differences =~= shifted_hunk(orig, after, delta).differences);
}

/// Moves the tracking lines after `after` of every difference.
fn adjust_tracking(patch: &mut FilePatch, after: usize, grow: bool, amount: usize)
    requires
        shift_fits(
            old(patch)@.hunks,
            after,
            if grow {
                amount as int
            } else {
                -amount
            },
        ),
    ensures
        final(patch)@ == (FilePatchModel {
            hunks: shift_hunks(
                old(patch)@.hunks,
                after,
                if grow {
                    amount as int
                } else {
                    -amount
                },
            ),
            ..old(patch)@
        }),
{
    let ghost delta: int = if grow {
        amount as int
    } else {
        -amount
    };
    let ghost orig = patch@;
    let n = patch.hunks.len();
    for k in 0..n
        invariant
            n == patch.hunks@.len(),
            n == orig.hunks.len(),
            delta == if grow {
                amount as int
            } else {
                -amount
            },
            shift_fits(orig.hunks, after, delta),
            patch@ == (FilePatchModel { hunks: patch@.hunks, ..orig }),
            forall|j: int| 0 <= j < k ==> #[trigger] patch@.hunks[j] == shifted_hunk(orig.hunks[j], after, delta),
            forall|j: int| k <= j < n ==> #[trigger] patch@.hunks[j] == orig.hunks[j],
    {
        assert(patch@.hunks[k as int] == patch.hunks@[k as int]@);
        let ghost prev = patch@.hunks;
        proof {
            if grow {
                assert forall|d: int|
                    0 <= d < orig.hunks[k as int].differences.len()
                        && #[trigger] orig.hunks[k as int].differences[d].dest_line_no > after implies orig.hunks[k as int].differences[d].tracking_dest_line_no
                    + amount <= usize::MAX by {
                    assert(orig.hunks[k as int].differences[d].dest_line_no > after);
                }
            }
        }
        shift_hunk(&mut patch.hunks[k], after, grow, amount);
        assert(patch@.hunks =~= prev.update(k as int, shifted_hunk(orig.hunks[k as int], after, delta)));
    }
    assert(patch@.hunks =~= shift_hunks(orig.hunks, after, delta));
}

/// The error for a difference index out of range.
fn index_error(i: usize, count: usize) -> (res: RCompareError)
    ensures
        res matches RCompareError::PatchParse(m) && m@ == index_message(i as nat, count as nat),
{
    let mut m = String::new();
    push_str(&mut m, INDEX_MESSAGE_OPEN);
    push_decimal(&mut m, i);
    push_str(&mut m, INDEX_MESSAGE_MID);
    push_decimal(&mut m, count);
    string_push(&mut m, ')');
    assert(m@ =~= index_message(i as nat, count as nat));
    RCompareError::PatchParse(m)
}

/// Engine for applying and unapplying individual differences and blending
/// original file content into a parsed patch model.
pub struct PatchEngine;

impl PatchEngine {
    /// Apply a single difference (by flat index among the non-unchanged
    /// differences), moving the tracking lines of all later differences.
    pub fn apply_difference(patch: &mut FilePatch, flat_idx: usize) -> (res: Result<(), RCompareError>)
        requires
            apply_fits(old(patch)@, flat_idx as int),
        ensures
            flat_idx < change_positions(old(patch)@.hunks).len() ==> res is Ok && final(patch)@
                == apply_model(old(patch)@, flat_idx as int),
            flat_idx >= change_positions(old(patch)@.hunks).len() ==> final(patch)@ == old(patch)@
                && (res matches Err(RCompareError::PatchParse(m)) && m@ == index_message(
                flat_idx as nat,
                change_positions(old(patch)@.hunks).len(),
            )),
    {
        let indices = patch.difference_indices();
        if flat_idx >= indices.len() {
            return Err(index_error(flat_idx, indices.len()));
        }
        let (hi, di) = indices[flat_idx];
        proof {
            lemma_patch_dims(patch);
            lemma_positions_valid(patch@.hunks, flat_idx as int);
            assert(patch@.hunks[hi as int] == patch.hunks@[hi as int]@);
            assert(patch@.hunks[hi as int].differences[di as int] == patch.hunks@[hi as int].differences@[di as int]@);
        }
        let diff = &patch.hunks[hi].differences[di];
        if diff.applied {
            return Ok(());
        }
        let src_len = diff.source_lines.len();
        let dst_len = diff.dest_lines.len();
        let diff_dest_line = diff.dest_line_no;
        let ghost orig = patch@;
        toggle(&mut patch.hunks[hi].differences[di]);
        proof {
            assert(patch@.hunks[hi as int].differences =~= orig.hunks[hi as int].differences.update(
                di as int,
                toggled(orig.hunks[hi as int].differences[di as int]),
            ));
        }
        patch.applied_count = patch.applied_count + 1;
        proof {
            assert(patch@.hunks =~= toggle_at(orig.hunks, hi as int, di as int));
            assert forall|h: int, d: int|
                0 <= h < patch@.hunks.len() && 0 <= d < patch@.hunks[h].differences.len()
                    && #[trigger] patch@.hunks[h].differences[d].dest_line_no > diff_dest_line implies patch@.hunks[h].differences[d].tracking_dest_line_no
                + line_delta(orig.hunks[hi as int].differences[di as int]) <= usize::MAX by {
                assert(orig.hunks[h].differences[d].dest_line_no > diff_dest_line);
            }
        }
        if dst_len >= src_len {
            adjust_tracking(patch, diff_dest_line, true, dst_len - src_len);
        } else {
            adjust_tracking(patch, diff_dest_line, false, src_len - dst_len);
        }
        Ok(())
    }

    /// Unapply a single difference (by flat index among the non-unchanged
    /// differences), moving the tracking lines of all later differences back.
    pub fn unapply_difference(patch: &mut FilePatch, flat_idx: usize) -> (res: Result<(), RCompareError>)
        requires
            unapply_fits(old(patch)@, flat_idx as int),
        ensures
            flat_idx < change_positions(old(patch)@.hunks).len() ==> res is Ok && final(patch)@
                == unapply_model(old(patch)@, flat_idx as int),
            flat_idx >= change_positions(old(patch)@.hunks).len() ==> final(patch)@ == old(patch)@
                && (res matches Err(RCompareError::PatchParse(m)) && m@ == index_message(
                flat_idx as nat,
                change_positions(old(patch)@.hunks).len(),
            )),
    {
        let indices = patch.difference_indices();
        if flat_idx >= indices.len() {
            return Err(index_error(flat_idx, indices.len()));
        }
        let (hi, di) = indices[flat_idx];
        proof {
            lemma_patch_dims(patch);
            lemma_positions_valid(patch@.hunks, flat_idx as int);
            assert(patch@.hunks[hi as int] == patch.hunks@[hi as int]@);
            assert(patch@.hunks[hi as int].differences[di as int] == patch.hunks@[hi as int].differences@[di as int]@);
        }
        let diff = &patch.hunks[hi].differences[di];
        if !diff.applied {
            return Ok(());
        }
        let src_len = diff.source_lines.len();
        let dst_len = diff.dest_lines.len();
        let diff_dest_line = diff.dest_line_no;
        let ghost orig = patch@;
        toggle(&mut patch.hunks[hi].differences[di]);
        proof {
            assert(patch@.hunks[hi as int].differences =~= orig.hunks[hi as int].differences.update(
                di as int,
                toggled(orig.hunks[hi as int].differences[di as int]),
            ));
        }
        if patch.applied_count > 0 {
            patch.applied_count = patch.applied_count - 1;
        }
        proof {
            assert(patch@.hunks =~= toggle_at(orig.hunks, hi as int, di as int));
            assert forall|h: int, d: int|
                0 <= h < patch@.hunks.len() && 0 <= d < patch@.hunks[h].differences.len()
                    && #[trigger] patch@.hunks[h].differences[d].dest_line_no > diff_dest_line implies patch@.hunks[h].differences[d].tracking_dest_line_no
                - line_delta(orig.hunks[hi as int].differences[di as int]) <= usize::MAX by {
                assert(orig.hunks[h].differences[d].dest_line_no > diff_dest_line);
            }
        }
        if src_len >= dst_len {
            adjust_tracking(patch, diff_dest_line, true, src_len - dst_len);
        } else {
            adjust_tracking(patch, diff_dest_line, false, dst_len - src_len);
        }
        Ok(())
    }

    /// Apply all differences at once (no tracking updates); every change is
    /// then applied, so the applied count becomes the number of changes.
    pub fn apply_all(patch: &mut FilePatch) -> (res: Result<(), RCompareError>)
        requires
            change_positions(old(patch)@.hunks).len() <= usize::MAX,
        ensures
            res is Ok,
            final(patch)@ == (FilePatchModel {
                hunks: map_differences(old(patch)@.hunks, |d: DifferenceModel| applied_all(d)),
                applied_count: change_positions(old(patch)@.hunks).len() as usize,
                ..old(patch)@
            }),
    {
        let ghost orig = patch@;
        let n = patch.hunks.len();
        let mut count: usize = 0;
        for k in 0..n
            invariant
                n == patch.hunks@.len(),
                n == orig.hunks.len(),
                change_positions(orig.hunks).len() <= usize::MAX,
                patch@ == (FilePatchModel { hunks: patch@.hunks, ..orig }),
                forall|j: int| 0 <= j < k ==> #[trigger] patch@.hunks[j] == (HunkModel {
                    differences: orig.hunks[j].differences.map_values(|d: DifferenceModel| applied_all(d)),
                    ..orig.hunks[j]
                }),
                forall|j: int| k <= j < n ==> #[trigger] patch@.hunks[j] == orig.hunks[j],
                count == change_positions_upto(orig.hunks, k as int).len(),
        {
            assert(patch@.hunks[k as int] == patch.hunks@[k as int]@);
            let ghost prev = patch@.hunks;
            proof {
                lemma_positions_monotone(orig.hunks, k + 1, n as int);
            }
            let c = apply_hunk_all(&mut patch.hunks[k], Ghost(k as int));
            count = count + c;
            assert(patch@.hunks =~= prev.update(k as int, HunkModel {
                differences: orig.hunks[k as int].differences.map_values(|d: DifferenceModel| applied_all(d)),
                ..orig.hunks[k as int]
            }));
        }
        patch.applied_count = count;
        assert(patch@.hunks =~= map_differences(orig.hunks, |d: DifferenceModel| applied_all(d)));
        Ok(())
    }

    /// Unapply all differences at once; the applied count becomes zero.
    pub fn unapply_all(patch: &mut FilePatch) -> (res: Result<(), RCompareError>)
        ensures
            res is Ok,
            final(patch)@ == (FilePatchModel {
                hunks: map_differences(old(patch)@.hunks, |d: DifferenceModel| unapplied_all(d)),
                applied_count: 0,
                ..old(patch)@
            }),
    {
        let ghost orig = patch@;
        let n = patch.hunks.len();
        for k in 0..n
            invariant
                n == patch.hunks@.len(),
                n == orig.hunks.len(),
                patch@ == (FilePatchModel { hunks: patch@.hunks, ..orig }),
                forall|j: int| 0 <= j < k ==> #[trigger] patch@.hunks[j] == (HunkModel {
                    differences: orig.hunks[j].differences.map_values(|d: DifferenceModel| unapplied_all(d)),
                    ..orig.hunks[j]
                }),
                forall|j: int| k <= j < n ==> #[trigger] patch@.hunks[j] == orig.hunks[j],
        {
            assert(patch@.hunks[k as int] == patch.hunks@[k as int]@);
            let ghost prev = patch@.hunks;
            unapply_hunk_all(&mut patch.hunks[k]);
            assert(patch@.hunks =~= prev.update(k as int, HunkModel {
                differences: orig.hunks[k as int].differences.map_values(|d: DifferenceModel| unapplied_all(d)),
                ..orig.hunks[k as int]
            }));
        }
        patch.applied_count = 0;
        assert(patch@.hunks =~= map_differences(orig.hunks, |d: DifferenceModel| unapplied_all(d)));
        Ok(())
    }

    /// Blend the original file content into the patch model: hunks of
    /// unchanged context added by blending go between and around the
    /// existing hunks, so that the model covers the whole file; and each
    /// difference of the existing hunks is marked as a conflict exactly when
    /// its expected source lines are not the file's lines at its place.
    pub fn blend_file(patch: &mut FilePatch, original_content: &str) -> (res: Result<(), RCompareError>)
        ensures
            res is Ok,
            final(patch)@ == (FilePatchModel {
                hunks: blend_from(old(patch)@.hunks, 0, kept_lines(original_content@), 1, 1, 0),
                blended: true,
                ..old(patch)@
            }),
    {
        let file_lines = split_lines(original_content);
        let ghost fl = lines_view(file_lines@);
        let ghost hs = patch@.hunks;
        let nl = file_lines.len();
        let mut src_line_no: usize = 1;
        let mut dst_line_no: usize = 1;
        let mut line_idx: usize = 0;
        let mut new_hunks: Vec<Hunk> = Vec::new();
        let n = patch.hunks.len();
        assert(crate::patch_parser::hunks_view(new_hunks@) =~= Seq::<HunkModel>::empty());
        for k in 0..n
            invariant
                n == patch.hunks@.len(),
                hs == patch@.hunks,
                nl == file_lines@.len(),
                fl == lines_view(file_lines@),
                line_idx <= nl,
                crate::patch_parser::hunks_view(new_hunks@) + blend_from(hs, k as int, fl, src_line_no, dst_line_no, line_idx as int)
                    == blend_from(hs, 0, fl, 1, 1, 0),
        {
            let ghost before = crate::patch_parser::hunks_view(new_hunks@);
            let ghost (s0, d0, i0) = (src_line_no, dst_line_no, line_idx as int);
            let hunk = &patch.hunks[k];
            assert(hs[k as int] == hunk@);
            let gap = src_line_no < hunk.source_start;
            let mut take: usize = 0;
            if gap {
                let want = hunk.source_start - src_line_no;
                let left = nl - line_idx;
                take = if want <= left {
                    want
                } else {
                    left
                };
                let blend = make_blend_hunk(src_line_no, dst_line_no, &file_lines, line_idx, line_idx + take);
                proof {
                    crate::patch_parser::lemma_hunks_push(new_hunks@, blend);
                }
                new_hunks.push(blend);
                src_line_no = src_line_no + take;
                dst_line_no = dst_line_no.wrapping_add(take);
                line_idx = line_idx + take;
            }
            let at = line_idx;
            let size = hunk.source_count;
            let left = nl - line_idx;
            let advance = if size <= left {
                size
            } else {
                left
            };
            line_idx = line_idx + advance;
            src_line_no = src_line_no.wrapping_add(size);
            dst_line_no = dst_line_no.wrapping_add(hunk.dest_count);
            let copy = check_hunk(hunk, &file_lines, at);
            proof {
                crate::patch_parser::lemma_hunks_push(new_hunks@, copy);
            }
            new_hunks.push(copy);
            proof {
                let pre: Seq<HunkModel> = if gap {
                    seq![blend_hunk(s0, d0, fl.subrange(i0, i0 + take))]
                } else {
                    Seq::empty()
                };
                assert(crate::patch_parser::hunks_view(new_hunks@) =~= before + pre + seq![checked_hunk(hs[k as int], fl, at as int)]);
                assert(blend_from(hs, k as int, fl, s0, d0, i0) == pre + seq![checked_hunk(hs[k as int], fl, at as int)] + blend_from(
                    hs,
                    k + 1,
                    fl,
                    src_line_no,
                    dst_line_no,
                    line_idx as int,
                ));
                assert(crate::patch_parser::hunks_view(new_hunks@) + blend_from(hs, k + 1, fl, src_line_no, dst_line_no, line_idx as int)
                    =~= before + blend_from(hs, k as int, fl, s0, d0, i0));
            }
        }
        if line_idx < nl {
            let blend = make_blend_hunk(src_line_no, dst_line_no, &file_lines, line_idx, nl);
            proof {
                crate::patch_parser::lemma_hunks_push(new_hunks@, blend);
            }
            new_hunks.push(blend);
        } else {
            assert(crate::patch_parser::hunks_view(new_hunks@) + Seq::<HunkModel>::empty()
                =~= crate::patch_parser::hunks_view(new_hunks@));
        }
        let ghost total = crate::patch_parser::hunks_view(new_hunks@);
        assert(total == blend_from(hs, 0, fl, 1, 1, 0));
        patch.hunks = new_hunks;
        patch.blended = true;
        assert(patch@.hunks =~= total);
        Ok(())
    }

    /// Rebuild the destination file content from the blended model: each
    /// applied difference contributes its source lines (the original), each
    /// other difference its destination lines (the patched text).
    pub fn reconstruct_destination(patch: &FilePatch) -> (res: Result<String, RCompareError>)
        ensures
            res matches Ok(s) && s@ == hunks_output(patch@.hunks),
    {
        let ghost hs = patch@.hunks;
        let mut output = String::new();
        let n = patch.hunks.len();
        for k in 0..n
            invariant
                n == patch.hunks@.len(),
                hs == patch@.hunks,
                output@ == hunks_output(hs.take(k as int)),
        {
            let hunk = &patch.hunks[k];
            assert(hs[k as int] == hunk@);
            let ghost ds = hunk@.differences;
            let ghost head = output@;
            let nd = hunk.differences.len();
            for j in 0..nd
                invariant
                    nd == hunk.differences@.len(),
                    ds == hunk@.differences,
                    output@ == head + differences_output(ds.take(j as int)),
            {
                let diff = &hunk.differences[j];
                assert(ds[j as int] == diff@);
                let lines = if diff.applied {
                    &diff.source_lines
                } else {
                    &diff.dest_lines
                };
                push_joined(&mut output, lines);
                assert(ds.take(j + 1).drop_last() =~= ds.take(j as int));
                assert(output@ =~= head + differences_output(ds.take(j + 1)));
            }
            assert(ds.take(nd as int) =~= ds);
            assert(hs.take(k + 1).drop_last() =~= hs.take(k as int));
        }
        assert(hs.take(n as int) =~= hs);
        Ok(output)
    }
}

/// Appends all `lines` to `out`, one after the other.
fn push_joined(out: &mut String, lines: &Vec<String>)
    ensures
        final(out)@ == old(out)@ + joined(lines_view(lines@)),
{
    let ghost start = out@;
    let ghost ls = lines_view(lines@);
    let n = lines.len();
    assert(ls.take(0) =~= Seq::<Seq<char>>::empty());
    for k in 0..n
        invariant
            n == lines@.len(),
            ls == lines_view(lines@),
            out@ == start + joined(ls.take(k as int)),
    {
        push_str(out, lines[k].as_str());
        assert(ls.take(k + 1).drop_last() =~= ls.take(k as int));
        assert(out@ =~= start + joined(ls.take(k + 1)));
    }
    assert(ls.take(n as int) =~= ls);
}

/// The count of change positions never decreases over more hunks.
proof fn lemma_positions_monotone(hunks: Seq<HunkModel>, i: int, j: int)
    requires
        0 <= i <= j <= hunks.len(),
    ensures
        change_positions_upto(hunks, i).len() <= change_positions_upto(hunks, j).len(),
    decreases j - i,
{
    if i < j {
        lemma_positions_monotone(hunks, i, j - 1);
    }
}


/// The source lines of a list of differences, one after the other.
pub open spec fn source_lines_of(ds: Seq<DifferenceModel>) -> Seq<Seq<char>>
    decreases ds.len(),
{
    if ds.len() == 0 {
        Seq::empty()
    } else {
        source_lines_of(ds.drop_last()) + ds.last().source_lines
    }
}

/// The hunks lie on the file's lines: each starts at line 1 or later, ends
/// within the file, holds exactly the file's lines of its range as its
/// source lines, and keeps its context lines on both sides; each hunk ends
/// before the next one starts; and the file has fewer lines than `usize`
/// can count.
#[verifier::opaque]
pub open spec fn hunks_fit_file(hunks: Seq<HunkModel>, lines: Seq<Seq<char>>) -> bool {
    &&& lines.len() < usize::MAX
    &&& forall|k: int| 0 <= k < hunks.len() ==> {
        &&& 1 <= (#[trigger] hunks[k]).source_start
        &&& hunks[k].source_start - 1 + hunks[k].source_count <= lines.len()
        &&& source_lines_of(hunks[k].differences) == lines.subrange(
            hunks[k].source_start - 1,
            hunks[k].source_start - 1 + hunks[k].source_count,
        )
        &&& forall|j: int| 0 <= j < hunks[k].differences.len()
            && (#[trigger] hunks[k].differences[j]).diff_type == DifferenceType::Unchanged
            ==> hunks[k].differences[j].dest_lines == hunks[k].differences[j].source_lines
    }
    &&& forall|i: int, j: int| 0 <= i < j < hunks.len() ==> (#[trigger] hunks[i]).source_start + hunks[i].source_count
        <= (#[trigger] hunks[j]).source_start
}

proof fn lemma_joined_concat(a: Seq<Seq<char>>, b: Seq<Seq<char>>)
    ensures
        joined(a + b) == joined(a) + joined(b),
    decreases b.len(),
{
    if b.len() == 0 {
        assert(a + b =~= a);
        assert(joined(a) + joined(b) =~= joined(a));
    } else {
        lemma_joined_concat(a, b.drop_last());
        assert((a + b).drop_last() =~= a + b.drop_last());
        assert((a + b).last() == b.last());
        assert(joined(a + b) =~= joined(a) + joined(b.drop_last()) + b.last());
    }
}

proof fn lemma_joined_one(x: Seq<char>)
    ensures
        joined(seq![x]) == x,
{
    assert(seq![x].drop_last() =~= Seq::<Seq<char>>::empty());
    assert(joined(Seq::<Seq<char>>::empty()) =~= Seq::<char>::empty());
    assert(seq![x].last() == x);
    assert(joined(seq![x]) =~= x);
}

/// Joining the kept lines of a text gives the text back.
proof fn lemma_kept_lines_joined(s: Seq<char>, start: int)
    requires
        0 <= start <= s.len(),
    ensures
        joined(kept_lines_from(s, start)) == s.subrange(start, s.len() as int),
    decreases s.len() - start,
{
    if start < s.len() {
        let e = crate::text::next_newline(s, start);
        crate::text::lemma_next_newline_bounds(s, start);
        if e < s.len() {
            lemma_kept_lines_joined(s, e + 1);
            lemma_joined_concat(seq![s.subrange(start, e + 1)], kept_lines_from(s, e + 1));
            lemma_joined_one(s.subrange(start, e + 1));
            assert(s.subrange(start, e + 1) + s.subrange(e + 1, s.len() as int) =~= s.subrange(start, s.len() as int));
        } else {
            lemma_joined_one(s.subrange(start, e));
        }
    } else {
        assert(kept_lines_from(s, start) =~= Seq::<Seq<char>>::empty());
        assert(s.subrange(start, s.len() as int) =~= Seq::<char>::empty());
    }
}

proof fn lemma_hunks_output_concat(a: Seq<HunkModel>, b: Seq<HunkModel>)
    ensures
        hunks_output(a + b) == hunks_output(a) + hunks_output(b),
    decreases b.len(),
{
    if b.len() == 0 {
        assert(a + b =~= a);
        assert(hunks_output(a) + hunks_output(b) =~= hunks_output(a));
    } else {
        lemma_hunks_output_concat(a, b.drop_last());
        assert((a + b).drop_last() =~= a + b.drop_last());
        assert((a + b).last() == b.last());
        assert(hunks_output(a + b) =~= hunks_output(a) + hunks_output(b.drop_last()) + differences_output(b.last().differences));
    }
}

/// Once every change is applied, differences that keep their context on
/// both sides output their source lines.
proof fn lemma_applied_output(ds: Seq<DifferenceModel>, f: spec_fn(DifferenceModel) -> DifferenceModel)
    requires
        forall|d: DifferenceModel| #[trigger] f(d) == applied_all(d),
        forall|j: int| 0 <= j < ds.len() && (#[trigger] ds[j]).diff_type == DifferenceType::Unchanged
            ==> ds[j].dest_lines == ds[j].source_lines,
    ensures
        differences_output(ds.map_values(f)) == joined(source_lines_of(ds)),
    decreases ds.len(),
{
    if ds.len() == 0 {
        assert(ds.map_values(f) =~= Seq::<DifferenceModel>::empty());
    } else {
        let m = ds.map_values(f);
        assert(m.drop_last() =~= ds.drop_last().map_values(f));
        assert(m.last() == f(ds.last()));
        assert(ds.last() == ds[ds.len() - 1]);
        assert forall|j: int| 0 <= j < ds.drop_last().len() && (#[trigger] ds.drop_last()[j]).diff_type
            == DifferenceType::Unchanged implies ds.drop_last()[j].dest_lines == ds.drop_last()[j].source_lines by {
            assert(ds.drop_last()[j] == ds[j]);
        }
        lemma_applied_output(ds.drop_last(), f);
        lemma_joined_concat(source_lines_of(ds.drop_last()), ds.last().source_lines);
    }
}

/// Differences that differ only in their conflict marks hold the same
/// source lines.
proof fn lemma_conflicts_keep_lines(a: Seq<DifferenceModel>, b: Seq<DifferenceModel>)
    requires
        same_but_conflicts(a, b),
    ensures
        source_lines_of(a) == source_lines_of(b),
    decreases a.len(),
{
    if a.len() > 0 {
        assert(same_but_conflicts(a.drop_last(), b.drop_last())) by {
            assert forall|j: int| 0 <= j < a.drop_last().len() implies (#[trigger] b.drop_last()[j]) == (DifferenceModel {
                conflict: b.drop_last()[j].conflict,
                ..a.drop_last()[j]
            }) by {
                assert(b.drop_last()[j] == b[j] && a.drop_last()[j] == a[j]);
            }
        }
        lemma_conflicts_keep_lines(a.drop_last(), b.drop_last());
        assert(b[b.len() - 1] == (DifferenceModel { conflict: b[b.len() - 1].conflict, ..a[a.len() - 1] }));
    }
}

/// A single hunk outputs its differences.
proof fn lemma_single_hunk_output(h: HunkModel, f: spec_fn(DifferenceModel) -> DifferenceModel)
    ensures
        hunks_output(map_differences(seq![h], f)) == differences_output(h.differences.map_values(f)),
{
    let m = map_differences(seq![h], f);
    assert(m.drop_last() =~= Seq::<HunkModel>::empty());
    assert(hunks_output(Seq::<HunkModel>::empty()) =~= Seq::<char>::empty());
    assert(m.last() == m[0]);
    assert(m[0].differences == h.differences.map_values(f));
    assert(hunks_output(m) =~= differences_output(h.differences.map_values(f)));
}

/// A blend hunk, its one context difference left as it is, outputs its
/// lines.
proof fn lemma_blend_hunk_output(src: usize, dst: usize, ls: Seq<Seq<char>>, f: spec_fn(DifferenceModel) -> DifferenceModel)
    requires
        forall|d: DifferenceModel| #[trigger] f(d) == applied_all(d),
    ensures
        hunks_output(map_differences(seq![blend_hunk(src, dst, ls)], f)) == joined(ls),
{
    let b = blend_hunk(src, dst, ls);
    lemma_single_hunk_output(b, f);
    let m = b.differences.map_values(f);
    assert(m.len() == 1);
    assert(m[0] == f(b.differences[0]));
    assert(f(b.differences[0]) == b.differences[0]);
    assert(m.drop_last() =~= Seq::<DifferenceModel>::empty());
    assert(differences_output(Seq::<DifferenceModel>::empty()) =~= Seq::<char>::empty());
    assert(m.last() == m[0]);
    assert(differences_output(m) =~= difference_output(b.differences[0]));
}

/// What the file's fit says of hunk `k` and of its place before the next.
proof fn lemma_fit_hunk(hunks: Seq<HunkModel>, lines: Seq<Seq<char>>, k: int)
    requires
        hunks_fit_file(hunks, lines),
        0 <= k < hunks.len(),
    ensures
        lines.len() < usize::MAX,
        1 <= hunks[k].source_start,
        hunks[k].source_start - 1 + hunks[k].source_count <= lines.len(),
        source_lines_of(hunks[k].differences) == lines.subrange(
            hunks[k].source_start - 1,
            hunks[k].source_start - 1 + hunks[k].source_count,
        ),
        forall|j: int| 0 <= j < hunks[k].differences.len()
            && (#[trigger] hunks[k].differences[j]).diff_type == DifferenceType::Unchanged
            ==> hunks[k].differences[j].dest_lines == hunks[k].differences[j].source_lines,
        k + 1 < hunks.len() ==> hunks[k].source_start + hunks[k].source_count <= hunks[k + 1].source_start,
{
    reveal(hunks_fit_file);
    assert(hunks[k] == hunks[k]);
    if k + 1 < hunks.len() {
        assert(hunks[k + 1] == hunks[k + 1]);
    }
}

/// A parsed hunk placed by blending outputs, with every change applied,
/// its source lines.
proof fn lemma_checked_hunk_output(h: HunkModel, lines: Seq<Seq<char>>, at: int, f: spec_fn(DifferenceModel) -> DifferenceModel)
    requires
        forall|d: DifferenceModel| #[trigger] f(d) == applied_all(d),
        forall|j: int| 0 <= j < h.differences.len()
            && (#[trigger] h.differences[j]).diff_type == DifferenceType::Unchanged
            ==> h.differences[j].dest_lines == h.differences[j].source_lines,
    ensures
        hunks_output(map_differences(seq![checked_hunk(h, lines, at)], f)) == joined(source_lines_of(h.differences)),
{
    let c = checked_hunk(h, lines, at);
    assert(same_but_conflicts(h.differences, c.differences));
    lemma_conflicts_keep_lines(h.differences, c.differences);
    assert forall|j: int| 0 <= j < c.differences.len() && (#[trigger] c.differences[j]).diff_type
        == DifferenceType::Unchanged implies c.differences[j].dest_lines == c.differences[j].source_lines by {
        assert(c.differences[j].diff_type == h.differences[j].diff_type);
    }
    lemma_applied_output(c.differences, f);
    lemma_single_hunk_output(c, f);
}

/// Changing every difference distributes over hunk lists put together.
proof fn lemma_map_differences_concat(a: Seq<HunkModel>, b: Seq<HunkModel>, f: spec_fn(DifferenceModel) -> DifferenceModel)
    ensures
        map_differences(a + b, f) == map_differences(a, f) + map_differences(b, f),
{
    assert(map_differences(a + b, f) =~= map_differences(a, f) + map_differences(b, f));
}

/// The output of blending from hunk `k` on, with every change applied, is
/// the file's lines from index `idx` on.
proof fn lemma_blend_output(
    hunks: Seq<HunkModel>,
    k: int,
    lines: Seq<Seq<char>>,
    src: usize,
    dst: usize,
    idx: int,
    f: spec_fn(DifferenceModel) -> DifferenceModel,
)
    requires
        hunks_fit_file(hunks, lines),
        forall|d: DifferenceModel| #[trigger] f(d) == applied_all(d),
        0 <= k <= hunks.len(),
        0 <= idx <= lines.len(),
        src as int == idx + 1,
        k < hunks.len() ==> idx <= hunks[k].source_start - 1,
    ensures
        hunks_output(map_differences(blend_from(hunks, k, lines, src, dst, idx), f)) == joined(
            lines.subrange(idx, lines.len() as int),
        ),
    decreases hunks.len() - k,
{
    let out = blend_from(hunks, k, lines, src, dst, idx);
    if k >= hunks.len() {
        if idx < lines.len() {
            lemma_blend_hunk_output(src, dst, lines.subrange(idx, lines.len() as int), f);
        } else {
            assert(map_differences(out, f) =~= Seq::<HunkModel>::empty());
            assert(lines.subrange(idx, lines.len() as int) =~= Seq::<Seq<char>>::empty());
        }
    } else {
        lemma_fit_hunk(hunks, lines, k);
        let h = hunks[k];
        let gap = src < h.source_start;
        let take = if gap { min_int(h.source_start - src, lines.len() - idx) } else { 0 };
        let pre = if gap { seq![blend_hunk(src, dst, lines.subrange(idx, idx + take))] } else { Seq::<HunkModel>::empty() };
        let src1 = (src + take) as usize;
        let dst1 = dst.wrapping_add(take as usize);
        let idx1 = idx + take;
        let advance = min_int(h.source_count as int, lines.len() - idx1);
        let nsrc = src1.wrapping_add(h.source_count);
        let ndst = dst1.wrapping_add(h.dest_count);
        let mid = seq![checked_hunk(h, lines, idx1)];
        let rest = blend_from(hunks, k + 1, lines, nsrc, ndst, idx1 + advance);
        assert(out == pre + mid + rest);
        assert(idx1 == h.source_start - 1);
        assert(advance == h.source_count);
        assert(nsrc as int == idx1 + advance + 1);
        lemma_blend_output(hunks, k + 1, lines, nsrc, ndst, idx1 + advance, f);
        lemma_map_differences_concat(pre + mid, rest, f);
        lemma_map_differences_concat(pre, mid, f);
        lemma_hunks_output_concat(map_differences(pre, f) + map_differences(mid, f), map_differences(rest, f));
        lemma_hunks_output_concat(map_differences(pre, f), map_differences(mid, f));
        if gap {
            lemma_blend_hunk_output(src, dst, lines.subrange(idx, idx1), f);
        } else {
            assert(map_differences(pre, f) =~= Seq::<HunkModel>::empty());
            assert(lines.subrange(idx, idx1) =~= Seq::<Seq<char>>::empty());
            assert(hunks_output(Seq::<HunkModel>::empty()) =~= Seq::<char>::empty());
        }
        lemma_checked_hunk_output(h, lines, idx1, f);
        lemma_joined_concat(lines.subrange(idx, idx1), lines.subrange(idx1, idx1 + advance));
        lemma_joined_concat(lines.subrange(idx, idx1 + advance), lines.subrange(idx1 + advance, lines.len() as int));
        assert(lines.subrange(idx, idx1) + lines.subrange(idx1, idx1 + advance) =~= lines.subrange(idx, idx1 + advance));
        assert(lines.subrange(idx, idx1 + advance) + lines.subrange(idx1 + advance, lines.len() as int) =~= lines.subrange(
            idx,
            lines.len() as int,
        ));
    }
}

/// Blending a patch with the file it was made from, then applying every
/// change, and reconstructing the destination gives the file back, when
/// the patch's hunks lie on the file's lines.
pub proof fn lemma_blend_apply_reconstruct(hunks: Seq<HunkModel>, content: Seq<char>)
    requires
        hunks_fit_file(hunks, kept_lines(content)),
    ensures
        hunks_output(
            map_differences(blend_from(hunks, 0, kept_lines(content), 1, 1, 0), |d: DifferenceModel| applied_all(d)),
        ) == content,
{
    let lines = kept_lines(content);
    let f = |d: DifferenceModel| applied_all(d);
    if hunks.len() > 0 {
        lemma_fit_hunk(hunks, lines, 0);
    }
    lemma_blend_output(hunks, 0, lines, 1, 1, 0, f);
    lemma_kept_lines_joined(content, 0);
    assert(lines.subrange(0, lines.len() as int) =~= lines);
    assert(content.subrange(0, content.len() as int) =~= content);
}

} // verus!
