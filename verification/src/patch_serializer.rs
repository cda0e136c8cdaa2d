//! Writes a patch model back out as unified diff text.

use crate::patch_engine::{blend_from, blend_hunk, checked_hunk, min_int};
use crate::patch_parser::{escaped_path, PatchParser};
use crate::patch_types::{
    dest_total, lines_view, source_total, DifferenceModel, DifferenceType, FilePatch,
    FilePatchModel, Hunk, HunkModel, HunkType, PatchDifference, PatchSet, PatchSetModel,
};
use crate::text::{chars_of, decimal, push_chars, push_decimal, push_str, string_push};
use vstd::prelude::*;

verus! {

/// Opening of a source file header.
pub const SOURCE_MARK: &'static str = "--- ";

/// Opening of a destination file header.
pub const DEST_MARK: &'static str = "+++ ";

/// Opening of a hunk header.
pub const HUNK_OPEN: &'static str = "@@ -";

/// Separator of the source and destination ranges in a hunk header.
pub const HUNK_MID: &'static str = " +";

/// Closing of the ranges in a hunk header.
pub const HUNK_CLOSE: &'static str = " @@";

/// `s` without one trailing newline.
pub open spec fn strip_newline(s: Seq<char>) -> Seq<char> {
    if s.len() > 0 && s.last() == '\n' {
        s.drop_last()
    } else {
        s
    }
}

/// Each line with marker `m` in front, its trailing newline dropped and a
/// newline added.
pub open spec fn marked_lines(m: char, lines: Seq<Seq<char>>) -> Seq<char>
    decreases lines.len(),
{
    if lines.len() == 0 {
        Seq::empty()
    } else {
        marked_lines(m, lines.drop_last()) + seq![m] + strip_newline(lines.last()) + seq!['\n']
    }
}

/// The body lines of one difference: context lines with ` `, removed lines
/// with `-`, added lines with `+`.
pub open spec fn difference_text(d: DifferenceModel) -> Seq<char> {
    match d.diff_type {
        DifferenceType::Unchanged => marked_lines(' ', d.source_lines),
        DifferenceType::Change => marked_lines('-', d.source_lines) + marked_lines(
            '+',
            d.dest_lines,
        ),
        DifferenceType::Delete => marked_lines('-', d.source_lines),
        DifferenceType::Insert => marked_lines('+', d.dest_lines),
    }
}

/// The body lines of a list of differences.
pub open spec fn differences_text(ds: Seq<DifferenceModel>) -> Seq<char>
    decreases ds.len(),
{
    if ds.len() == 0 {
        Seq::empty()
    } else {
        differences_text(ds.drop_last()) + difference_text(ds.last())
    }
}

/// A hunk: `@@ -start,count +start,count @@`, a space and the function
/// name when there is one, a newline, then the body. The counts are
/// recomputed from the lines.
pub open spec fn hunk_text(h: HunkModel) -> Seq<char> {
    HUNK_OPEN@ + decimal(h.source_start as nat) + seq![','] + decimal(
        source_total(h.differences, h.differences.len() as int),
    ) + HUNK_MID@ + decimal(h.dest_start as nat) + seq![','] + decimal(
        dest_total(h.differences, h.differences.len() as int),
    ) + HUNK_CLOSE@ + match h.function_name {
        Some(f) => seq![' '] + f,
        None => Seq::empty(),
    } + seq!['\n'] + differences_text(h.differences)
}

/// The hunks of a file patch, leaving out those added by blending.
pub open spec fn hunks_text(hs: Seq<HunkModel>) -> Seq<char>
    decreases hs.len(),
{
    if hs.len() == 0 {
        Seq::empty()
    } else {
        hunks_text(hs.drop_last()) + if hs.last().hunk_type == HunkType::AddedByBlend {
            Seq::empty()
        } else {
            hunk_text(hs.last())
        }
    }
}

/// `\t` and `s`, or nothing when `s` is empty.
pub open spec fn tab_field(s: Seq<char>) -> Seq<char> {
    if s.len() > 0 {
        seq!['\t'] + s
    } else {
        Seq::empty()
    }
}

/// A file patch: the `---` and `+++` headers (escaped path, then timestamp
/// and revision when present), then its hunks.
pub open spec fn file_text(f: FilePatchModel) -> Seq<char> {
    SOURCE_MARK@ + escaped_path(f.source) + tab_field(f.source_timestamp) + tab_field(
        f.source_revision,
    ) + seq!['\n'] + DEST_MARK@ + escaped_path(f.destination) + tab_field(f.dest_timestamp)
        + tab_field(f.dest_revision) + seq!['\n'] + hunks_text(f.hunks)
}

/// The file patches one after the other.
pub open spec fn files_text(fs: Seq<FilePatchModel>) -> Seq<char>
    decreases fs.len(),
{
    if fs.len() == 0 {
        Seq::empty()
    } else {
        files_text(fs.drop_last()) + file_text(fs.last())
    }
}

/// The line counts of a hunk fit in `usize`.
pub open spec fn hunk_counts_fit(h: HunkModel) -> bool {
    source_total(h.differences, h.differences.len() as int) <= usize::MAX && dest_total(
        h.differences,
        h.differences.len() as int,
    ) <= usize::MAX
}

/// The line counts of every hunk of a file patch fit in `usize`.
pub open spec fn file_counts_fit(f: FilePatchModel) -> bool {
    forall|k: int| 0 <= k < f.hunks.len() ==> hunk_counts_fit(#[trigger] f.hunks[k])
}

/// The line counts of every hunk of a patch set fit in `usize`.
pub open spec fn set_counts_fit(ps: PatchSetModel) -> bool {
    forall|k: int| 0 <= k < ps.files.len() ==> file_counts_fit(#[trigger] ps.files[k])
}

/// Serializer that recreates unified diff text from a patch model.
///
/// Hunks added by blending are skipped, since they hold original file
/// context and not diff content.
pub struct PatchSerializer;

impl PatchSerializer {
    /// Serialize an entire patch set to unified diff text.
    pub fn serialize(patch_set: &PatchSet) -> (res: String)
        requires
            set_counts_fit(patch_set@),
        ensures
            res@ == files_text(patch_set@.files),
    {
        let ghost fs = patch_set@.files;
        let mut output = String::new();
        let n = patch_set.files.len();
        for k in 0..n
            invariant
                n == patch_set.files@.len(),
                fs == patch_set@.files,
                set_counts_fit(patch_set@),
                output@ == files_text(fs.take(k as int)),
        {
            assert(fs[k as int] == patch_set.files@[k as int]@);
            assert(file_counts_fit(fs[k as int]));
            let t = Self::serialize_file_patch(&patch_set.files[k]);
            push_str(&mut output, t.as_str());
            assert(fs.take(k + 1).drop_last() =~= fs.take(k as int));
        }
        assert(fs.take(n as int) =~= fs);
        output
    }

    /// Serialize a single file patch to unified diff text.
    pub fn serialize_file_patch(fp: &FilePatch) -> (res: String)
        requires
            file_counts_fit(fp@),
        ensures
            res@ == file_text(fp@),
    {
        let mut output = String::new();
        push_str(&mut output, SOURCE_MARK);
        push_str(&mut output, PatchParser::escape_path(fp.source.as_str()).as_str());
        push_tab_field(&mut output, &fp.source_timestamp);
        push_tab_field(&mut output, &fp.source_revision);
        string_push(&mut output, '\n');
        push_str(&mut output, DEST_MARK);
        push_str(&mut output, PatchParser::escape_path(fp.destination.as_str()).as_str());
        push_tab_field(&mut output, &fp.dest_timestamp);
        push_tab_field(&mut output, &fp.dest_revision);
        string_push(&mut output, '\n');
        let ghost head = output@;
        let ghost hs = fp@.hunks;
        let n = fp.hunks.len();
        for k in 0..n
            invariant
                n == fp.hunks@.len(),
                hs == fp@.hunks,
                file_counts_fit(fp@),
                output@ == head + hunks_text(hs.take(k as int)),
        {
            assert(hs[k as int] == fp.hunks@[k as int]@);
            assert(hs.take(k + 1).drop_last() =~= hs.take(k as int));
            if fp.hunks[k].hunk_type == HunkType::AddedByBlend {
                assert(hunks_text(hs.take(k + 1)) =~= hunks_text(hs.take(k as int)));
            } else {
                assert(hunk_counts_fit(hs[k as int]));
                let t = Self::serialize_hunk(&fp.hunks[k]);
                push_str(&mut output, t.as_str());
                assert(output@ =~= head + hunks_text(hs.take(k + 1)));
            }
        }
        assert(hs.take(n as int) =~= hs);
        assert(output@ =~= file_text(fp@));
        output
    }

    fn serialize_hunk(hunk: &Hunk) -> (res: String)
        requires
            hunk_counts_fit(hunk@),
        ensures
            res@ == hunk_text(hunk@),
    {
        let ghost ds = hunk@.differences;
        let mut body = String::new();
        let mut src_count: usize = 0;
        let mut dst_count: usize = 0;
        let n = hunk.differences.len();
        for k in 0..n
            invariant
                n == hunk.differences@.len(),
                ds == hunk@.differences,
                hunk_counts_fit(hunk@),
                body@ == differences_text(ds.take(k as int)),
                src_count == source_total(ds, k as int),
                dst_count == dest_total(ds, k as int),
        {
            let diff = &hunk.differences[k];
            assert(ds[k as int] == diff@);
            let t = Self::serialize_difference(diff);
            push_str(&mut body, t.as_str());
            assert(ds.take(k + 1).drop_last() =~= ds.take(k as int));
            proof {
                crate::patch_types::lemma_totals_monotone(ds, k + 1, n as int);
            }
            match diff.diff_type {
                DifferenceType::Unchanged => {
                    src_count = src_count + diff.source_line_count();
                    dst_count = dst_count + diff.dest_line_count();
                },
                DifferenceType::Change => {
                    src_count = src_count + diff.source_line_count();
                    dst_count = dst_count + diff.dest_line_count();
                },
                DifferenceType::Delete => {
                    src_count = src_count + diff.source_line_count();
                },
                DifferenceType::Insert => {
                    dst_count = dst_count + diff.dest_line_count();
                },
            }
        }
        assert(ds.take(n as int) =~= ds);
        let mut header = String::new();
        push_str(&mut header, HUNK_OPEN);
        push_decimal(&mut header, hunk.source_start);
        string_push(&mut header, ',');
        push_decimal(&mut header, src_count);
        push_str(&mut header, HUNK_MID);
        push_decimal(&mut header, hunk.dest_start);
        string_push(&mut header, ',');
        push_decimal(&mut header, dst_count);
        push_str(&mut header, HUNK_CLOSE);
        match &hunk.function_name {
            Some(func) => {
                string_push(&mut header, ' ');
                push_str(&mut header, func.as_str());
            },
            None => {},
        }
        string_push(&mut header, '\n');
        push_str(&mut header, body.as_str());
        assert(header@ =~= hunk_text(hunk@));
        header
    }

    fn serialize_difference(diff: &PatchDifference) -> (res: String)
        ensures
            res@ == difference_text(diff@),
    {
        let mut output = String::new();
        match diff.diff_type {
            DifferenceType::Unchanged => {
                push_marked_lines(&mut output, ' ', &diff.source_lines);
            },
            DifferenceType::Change => {
                push_marked_lines(&mut output, '-', &diff.source_lines);
                push_marked_lines(&mut output, '+', &diff.dest_lines);
            },
            DifferenceType::Delete => {
                push_marked_lines(&mut output, '-', &diff.source_lines);
            },
            DifferenceType::Insert => {
                push_marked_lines(&mut output, '+', &diff.dest_lines);
            },
        }
        assert(output@ =~= difference_text(diff@));
        output
    }
}

/// Appends `\t` and `s` to `out`, when `s` is not empty.
fn push_tab_field(out: &mut String, s: &String)
    ensures
        final(out)@ == old(out)@ + tab_field(s@),
{
    let cs = chars_of(s.as_str());
    if cs.len() > 0 {
        string_push(out, '\t');
        push_chars(out, cs.as_slice());
        assert(final(out)@ =~= old(out)@ + tab_field(s@));
    } else {
        assert(old(out)@ + tab_field(s@) =~= old(out)@);
    }
}

/// Appends each line with marker `m` in front, without its trailing newline,
/// and a newline.
fn push_marked_lines(out: &mut String, m: char, lines: &Vec<String>)
    ensures
        final(out)@ == old(out)@ + marked_lines(m, lines_view(lines@)),
{
    let ghost start = out@;
    let ghost ls = lines_view(lines@);
    let n = lines.len();
    assert(ls.take(0) =~= Seq::<Seq<char>>::empty());
    for k in 0..n
        invariant
            n == lines@.len(),
            ls == lines_view(lines@),
            out@ == start + marked_lines(m, ls.take(k as int)),
    {
        string_push(out, m);
        let stripped = strip_trailing_newline(lines[k].as_str());
        push_chars(out, stripped.as_slice());
        string_push(out, '\n');
        assert(ls.take(k + 1).drop_last() =~= ls.take(k as int));
        assert(ls.take(k + 1).last() == lines@[k as int]@);
        assert(out@ =~= start + marked_lines(m, ls.take(k + 1)));
    }
    assert(ls.take(n as int) =~= ls);
}

/// The characters of `s` without one trailing newline.
fn strip_trailing_newline(s: &str) -> (res: Vec<char>)
    ensures
        res@ == strip_newline(s@),
{
    let mut cs = chars_of(s);
    if cs.len() > 0 && cs[cs.len() - 1] == '\n' {
        cs.pop();
    }
    cs
}


/// Two lists of differences that differ at most in their conflict marks.
pub open spec fn same_but_conflicts(a: Seq<DifferenceModel>, b: Seq<DifferenceModel>) -> bool {
    a.len() == b.len() && forall|j: int| 0 <= j < a.len() ==> (#[trigger] b[j]) == (DifferenceModel { conflict: b[j].conflict, ..a[j] })
}

/// Conflict marks change neither the text nor the line counts of differences.
proof fn lemma_conflicts_not_serialized(a: Seq<DifferenceModel>, b: Seq<DifferenceModel>, n: int)
    requires
        same_but_conflicts(a, b),
        0 <= n <= a.len(),
    ensures
        source_total(a, n) == source_total(b, n),
        dest_total(a, n) == dest_total(b, n),
        n == a.len() ==> differences_text(a) == differences_text(b),
    decreases n,
{
    if n > 0 {
        lemma_conflicts_not_serialized(a, b, n - 1);
        assert(b[n - 1] == (DifferenceModel { conflict: b[n - 1].conflict, ..a[n - 1] }));
        if n == a.len() {
            assert(same_but_conflicts(a.drop_last(), b.drop_last()));
            lemma_conflicts_not_serialized(a.drop_last(), b.drop_last(), n - 1);
            assert(a.last() == a[n - 1] && b.last() == b[n - 1]);
        }
    }
}

/// The text of hunks one after the other is the texts one after the other.
proof fn lemma_hunks_text_concat(a: Seq<HunkModel>, b: Seq<HunkModel>)
    ensures
        hunks_text(a + b) == hunks_text(a) + hunks_text(b),
    decreases b.len(),
{
    if b.len() == 0 {
        assert(a + b =~= a);
    } else {
        lemma_hunks_text_concat(a, b.drop_last());
        assert((a + b).drop_last() =~= a + b.drop_last());
        assert((a + b).last() == b.last());
    }
}

/// Blending from hunk `k` on serializes as the parsed hunks from `k` on.
proof fn lemma_blend_from_text(hunks: Seq<HunkModel>, k: int, lines: Seq<Seq<char>>, src: usize, dst: usize, idx: int)
    requires
        0 <= k <= hunks.len(),
        forall|j: int| 0 <= j < hunks.len() ==> (#[trigger] hunks[j]).hunk_type != HunkType::AddedByBlend,
    ensures
        hunks_text(blend_from(hunks, k, lines, src, dst, idx)) == hunks_text(hunks.subrange(k, hunks.len() as int)),
    decreases hunks.len() - k,
{
    if k >= hunks.len() {
        assert(hunks.subrange(k, hunks.len() as int) =~= Seq::<HunkModel>::empty());
        if 0 <= idx < lines.len() {
            let one = seq![blend_hunk(src, dst, lines.subrange(idx, lines.len() as int))];
            assert(one.drop_last() =~= Seq::<HunkModel>::empty());
        }
    } else {
        let h = hunks[k];
        let gap = src < h.source_start;
        let take = if gap { min_int(h.source_start - src, lines.len() - idx) } else { 0 };
        let pre = if gap { seq![blend_hunk(src, dst, lines.subrange(idx, idx + take))] } else { Seq::<HunkModel>::empty() };
        let src1 = (src + take) as usize;
        let dst1 = dst.wrapping_add(take as usize);
        let idx1 = idx + take;
        let advance = min_int(h.source_count as int, lines.len() - idx1);
        let c = checked_hunk(h, lines, idx1);
        let rest = blend_from(hunks, k + 1, lines, src1.wrapping_add(h.source_count), dst1.wrapping_add(h.dest_count), idx1 + advance);
        assert(blend_from(hunks, k, lines, src, dst, idx) == pre + seq![c] + rest);
        lemma_blend_from_text(hunks, k + 1, lines, src1.wrapping_add(h.source_count), dst1.wrapping_add(h.dest_count), idx1 + advance);
        lemma_hunks_text_concat(pre + seq![c], rest);
        lemma_hunks_text_concat(pre, seq![c]);
        assert(hunks_text(Seq::<HunkModel>::empty()) == Seq::<char>::empty());
        if gap {
            assert(pre.drop_last() =~= Seq::<HunkModel>::empty());
            assert(pre.last().hunk_type == HunkType::AddedByBlend);
            assert(hunks_text(pre) =~= Seq::<char>::empty());
        } else {
            assert(hunks_text(pre) =~= Seq::<char>::empty());
        }
        assert(seq![c].drop_last() =~= Seq::<HunkModel>::empty());
        assert(same_but_conflicts(h.differences, c.differences));
        lemma_conflicts_not_serialized(h.differences, c.differences, h.differences.len() as int);
        assert(hunk_text(c) == hunk_text(h));
        assert(hunks_text(seq![h]) == hunk_text(h)) by {
            assert(seq![h].drop_last() =~= Seq::<HunkModel>::empty());
        }
        lemma_hunks_text_concat(seq![h], hunks.subrange(k + 1, hunks.len() as int));
        assert(hunks.subrange(k, hunks.len() as int) =~= seq![h] + hunks.subrange(k + 1, hunks.len() as int));
    }
}

/// Blending a patch with the file it applies to leaves its serialized text
/// as it was: blend hunks are not written, and the parsed hunks are written
/// as before, whatever their conflict marks.
pub proof fn lemma_blend_keeps_serialization(f: FilePatchModel, lines: Seq<Seq<char>>)
    requires
        forall|j: int| 0 <= j < f.hunks.len() ==> (#[trigger] f.hunks[j]).hunk_type != HunkType::AddedByBlend,
    ensures
        file_text(FilePatchModel { hunks: blend_from(f.hunks, 0, lines, 1, 1, 0), blended: true, ..f }) == file_text(f),
{
    lemma_blend_from_text(f.hunks, 0, lines, 1, 1, 0);
    assert(f.hunks.subrange(0, f.hunks.len() as int) =~= f.hunks);
}


/// A blend hunk holds one context difference of its lines on both sides,
/// so its counts are its number of lines.
proof fn lemma_blend_hunk_fits(src: usize, dst: usize, ls: Seq<Seq<char>>)
    requires
        ls.len() <= usize::MAX,
    ensures
        hunk_counts_fit(blend_hunk(src, dst, ls)),
{
    let ds = blend_hunk(src, dst, ls).differences;
    assert(source_total(ds, 0) == 0 && dest_total(ds, 0) == 0);
    assert(source_total(ds, 1) == ls.len());
    assert(dest_total(ds, 1) == ls.len());
}

/// The hunks of blending from hunk `k` on have counts that fit in `usize`
/// when the parsed hunks do and the file has no more lines than `usize`
/// counts.
proof fn lemma_blend_from_fits(hunks: Seq<HunkModel>, k: int, lines: Seq<Seq<char>>, src: usize, dst: usize, idx: int)
    requires
        0 <= k,
        0 <= idx <= lines.len() <= usize::MAX,
        forall|j: int| 0 <= j < hunks.len() ==> hunk_counts_fit(#[trigger] hunks[j]),
    ensures
        forall|j: int| 0 <= j < blend_from(hunks, k, lines, src, dst, idx).len()
            ==> hunk_counts_fit(#[trigger] blend_from(hunks, k, lines, src, dst, idx)[j]),
    decreases hunks.len() - k,
{
    let out = blend_from(hunks, k, lines, src, dst, idx);
    if k >= hunks.len() {
        if idx < lines.len() {
            lemma_blend_hunk_fits(src, dst, lines.subrange(idx, lines.len() as int));
        }
    } else {
        let h = hunks[k];
        let gap = src < h.source_start;
        let take = if gap { min_int(h.source_start - src, lines.len() - idx) } else { 0 };
        let pre = if gap { seq![blend_hunk(src, dst, lines.subrange(idx, idx + take))] } else { Seq::<HunkModel>::empty() };
        let src1 = (src + take) as usize;
        let dst1 = dst.wrapping_add(take as usize);
        let idx1 = idx + take;
        let advance = min_int(h.source_count as int, lines.len() - idx1);
        let c = checked_hunk(h, lines, idx1);
        let rest = blend_from(hunks, k + 1, lines, src1.wrapping_add(h.source_count), dst1.wrapping_add(h.dest_count), idx1 + advance);
        assert(out == pre + seq![c] + rest);
        assert(0 <= take <= lines.len() - idx);
        lemma_blend_from_fits(hunks, k + 1, lines, src1.wrapping_add(h.source_count), dst1.wrapping_add(h.dest_count), idx1 + advance);
        if gap {
            lemma_blend_hunk_fits(src, dst, lines.subrange(idx, idx + take));
        }
        assert(same_but_conflicts(h.differences, c.differences));
        lemma_conflicts_not_serialized(h.differences, c.differences, h.differences.len() as int);
        assert(hunk_counts_fit(h));
        assert(hunk_counts_fit(c));
        assert forall|j: int| 0 <= j < out.len() implies hunk_counts_fit(#[trigger] out[j]) by {
            if j < pre.len() {
                assert(out[j] == pre[j]);
            } else if j == pre.len() {
                assert(out[j] == c);
            } else {
                assert(out[j] == rest[j - pre.len() - 1]);
            }
        }
    }
}

/// Blending keeps a file patch serializable: its hunks' counts still fit
/// in `usize` when the file has no more lines than `usize` counts.
pub proof fn lemma_blend_keeps_counts_fit(f: FilePatchModel, lines: Seq<Seq<char>>)
    requires
        file_counts_fit(f),
        lines.len() <= usize::MAX,
    ensures
        file_counts_fit(FilePatchModel { hunks: blend_from(f.hunks, 0, lines, 1, 1, 0), blended: true, ..f }),
{
    lemma_blend_from_fits(f.hunks, 0, lines, 1, 1, 0);
}

} // verus!
