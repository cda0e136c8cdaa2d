//! Parsers for diff/patch output in the unified, context, normal, ed and RCS
//! formats, with generator and format detection.

pub mod context;
pub mod ed;
pub mod normal;
pub mod quoting;
pub mod rcs;
pub mod unified;

use crate::error::RCompareError;
use crate::patch_types::{
    lines_view, new_file_patch, opt_string_view, DiffFormat, DiffGenerator, DifferenceModel,
    FilePatch, FilePatchModel, Hunk, HunkModel, PatchDifference, PatchSet, PatchSetModel,
};
use crate::regex_match::{captures_view, group, group_of, regex_captures, regex_captures_of};
use crate::text::{chars_of, contains_char, has_prefix, parse_usize, parse_usize_spec, push_chars, push_str, replace_all, replace_chars, slice_chars, split_lines_chars, starts_with, string_from_chars, string_push, text_lines, trim, trim_chars};
use vstd::prelude::*;

verus! {

/// The character sequences of a list of string slices.
pub open spec fn lines_model(lines: Seq<&str>) -> Seq<Seq<char>> {
    lines.map_values(|s: &str| s@)
}

/// The models of a list of file patches.
pub open spec fn files_view(v: Seq<FilePatch>) -> Seq<FilePatchModel> {
    v.map_values(|f: FilePatch| f@)
}

/// The models of a list of hunks.
pub open spec fn hunks_view(v: Seq<Hunk>) -> Seq<HunkModel> {
    v.map_values(|h: Hunk| h@)
}

/// The models of a list of differences.
pub open spec fn diffs_view(v: Seq<PatchDifference>) -> Seq<DifferenceModel> {
    v.map_values(|d: PatchDifference| d@)
}

/// The capture groups of a successful match.
pub open spec fn groups(caps: Vec<Option<String>>) -> Seq<Option<Seq<char>>> {
    captures_view(Some(caps)).unwrap()
}

/// The number a group holds when `str::parse::<usize>` accepts it, else
/// `default` (also when the group did not take part).
pub open spec fn num_or(g: Option<Seq<char>>, default: usize) -> usize {
    match g {
        Some(t) => match parse_usize_spec(t) {
            Some(v) => v,
            None => default,
        },
        None => default,
    }
}

/// `end - start + 1` in wrapping `usize` arithmetic.
pub open spec fn span(start: usize, end: usize) -> usize {
    end.wrapping_sub(start).wrapping_add(1)
}

/// `n` empty lines.
pub open spec fn empty_lines(n: usize) -> Seq<Seq<char>> {
    Seq::new(n as nat, |k: int| Seq::<char>::empty())
}

/// A single file patch holding `hunks`, or nothing when there are no hunks.
pub open spec fn single_file(hunks: Seq<HunkModel>) -> Seq<FilePatchModel> {
    if hunks.len() == 0 {
        Seq::empty()
    } else {
        seq![FilePatchModel { hunks, ..new_file_patch() }]
    }
}

/// The number group `i` holds, or `default`.
pub fn group_num(caps: &Vec<Option<String>>, i: usize, default: usize) -> (res: usize)
    ensures
        res == num_or(group_of(groups(*caps), i as int), default),
{
    match group(caps, i) {
        Some(t) => match parse_usize(t.as_slice()) {
            Some(v) => v,
            None => default,
        },
        None => default,
    }
}

/// The text group `i` holds, or the empty string.
pub fn group_text(caps: &Vec<Option<String>>, i: usize) -> (res: Vec<char>)
    ensures
        res@ == match group_of(groups(*caps), i as int) {
            Some(t) => t,
            None => Seq::empty(),
        },
        res@.len() > 0 ==> group_of(groups(*caps), i as int) == Some(res@),
{
    match group(caps, i) {
        Some(t) => t,
        None => Vec::new(),
    }
}

/// Group `i` trimmed of white space, when it took part and is not blank.
pub open spec fn function_name_of(c: Seq<Option<Seq<char>>>, i: int) -> Option<Seq<char>> {
    match group_of(c, i) {
        Some(t) => if trim(t).len() > 0 {
            Some(trim(t))
        } else {
            None
        },
        None => None,
    }
}

/// Group `i` trimmed, when it took part and is not blank.
pub fn group_name(caps: &Vec<Option<String>>, i: usize) -> (res: Option<String>)
    ensures
        opt_string_view(res) == function_name_of(groups(*caps), i as int),
{
    match group(caps, i) {
        Some(t) => {
            let name = trim_chars(t.as_slice());
            if name.len() > 0 {
                Some(string_from_chars(name.as_slice()))
            } else {
                None
            }
        },
        None => None,
    }
}

/// `s` followed by a newline.
pub fn line_with_newline(s: &str) -> (res: String)
    ensures
        res@ == s@.push('\n'),
{
    let mut res = String::new();
    push_str(&mut res, s);
    string_push(&mut res, '\n');
    assert(Seq::<char>::empty() + s@ == s@);
    res
}

/// `n` empty strings.
pub fn empty_strings(n: usize) -> (res: Vec<String>)
    ensures
        lines_view(res@) == empty_lines(n),
{
    let mut res: Vec<String> = Vec::new();
    for k in 0..n
        invariant
            res@.len() == k,
            forall|j: int| 0 <= j < k ==> (#[trigger] res@[j])@ == Seq::<char>::empty(),
    {
        res.push(String::new());
    }
    assert(lines_view(res@) =~= empty_lines(n));
    res
}

/// The character sequences of the given lines.
pub fn lines_chars(lines: &[&str]) -> (res: Vec<Vec<char>>)
    ensures
        res@.len() == lines@.len(),
        forall|i: int| 0 <= i < lines@.len() ==> (#[trigger] res@[i])@ == lines@[i]@,
{
    let mut res: Vec<Vec<char>> = Vec::new();
    let n = lines.len();
    for i in 0..n
        invariant
            n == lines@.len(),
            res@.len() == i,
            forall|j: int| 0 <= j < i ==> (#[trigger] res@[j])@ == lines@[j]@,
    {
        res.push(chars_of(lines[i]));
    }
    res
}

/// Pushing onto a list of hunks pushes onto its models.
pub proof fn lemma_hunks_push(v: Seq<Hunk>, h: Hunk)
    ensures
        hunks_view(v.push(h)) == hunks_view(v).push(h@),
{
    assert(hunks_view(v.push(h)) =~= hunks_view(v).push(h@));
}

/// Pushing onto a list of file patches pushes onto its models.
pub proof fn lemma_files_push(v: Seq<FilePatch>, f: FilePatch)
    ensures
        files_view(v.push(f)) == files_view(v).push(f@),
{
    assert(files_view(v.push(f)) =~= files_view(v).push(f@));
}

/// Pushing onto a list of differences pushes onto its models.
pub proof fn lemma_diffs_push(v: Seq<PatchDifference>, d: PatchDifference)
    ensures
        diffs_view(v.push(d)) == diffs_view(v).push(d@),
{
    assert(diffs_view(v.push(d)) =~= diffs_view(v).push(d@));
}

/// Pushing onto a list of strings pushes onto its character sequences.
pub proof fn lemma_lines_push(v: Seq<String>, s: String)
    ensures
        lines_view(v.push(s)) == lines_view(v).push(s@),
{
    assert(lines_view(v.push(s)) =~= lines_view(v).push(s@));
}

/// Index of the first line at or after `i` that does not start with `p`,
/// or the number of lines.
pub open spec fn scan_prefixed(l: Seq<Seq<char>>, i: int, p: Seq<char>) -> int
    decreases l.len() - i,
{
    if i >= l.len() {
        l.len() as int
    } else if starts_with(l[i], p) {
        scan_prefixed(l, i + 1, p)
    } else {
        i
    }
}

/// `scan_prefixed` lies between `i` and the number of lines.
pub proof fn lemma_scan_prefixed_bounds(l: Seq<Seq<char>>, i: int, p: Seq<char>)
    requires
        0 <= i <= l.len(),
    ensures
        i <= scan_prefixed(l, i, p) <= l.len(),
    decreases l.len() - i,
{
    if i < l.len() && starts_with(l[i], p) {
        lemma_scan_prefixed_bounds(l, i + 1, p);
    }
}

/// Lines `i..j` with their first `m` characters removed and a newline added.
pub open spec fn stripped_lines(l: Seq<Seq<char>>, i: int, j: int, m: int) -> Seq<Seq<char>> {
    Seq::new((j - i) as nat, |k: int| l[i + k].subrange(m, l[i + k].len() as int).push('\n'))
}

/// The run of lines from `i` on that start with `p`, each without `p` and
/// with a newline added, and the index just after the run.
pub fn collect_prefixed(lines: &[&str], i: usize, p: &[char]) -> (res: (Vec<String>, usize))
    requires
        i <= lines@.len(),
    ensures
        res.1 == scan_prefixed(lines_model(lines@), i as int, p@),
        i <= res.1 <= lines@.len(),
        lines_view(res.0@) == stripped_lines(
            lines_model(lines@),
            i as int,
            res.1 as int,
            p@.len() as int,
        ),
{
    let ghost l = lines_model(lines@);
    let n = lines.len();
    let mut out: Vec<String> = Vec::new();
    let mut j = i;
    assert(stripped_lines(l, i as int, i as int, p@.len() as int) =~= Seq::<Seq<char>>::empty());
    loop
        invariant
            n == lines@.len(),
            l == lines_model(lines@),
            i <= j <= n,
            scan_prefixed(l, i as int, p@) == scan_prefixed(l, j as int, p@),
            lines_view(out@) == stripped_lines(l, i as int, j as int, p@.len() as int),
        ensures
            i <= j <= n,
            scan_prefixed(l, i as int, p@) == j,
            lines_view(out@) == stripped_lines(l, i as int, j as int, p@.len() as int),
        decreases n - j,
    {
        if j >= n {
            break;
        }
        let cs = chars_of(lines[j]);
        if !has_prefix(cs.as_slice(), p) {
            break;
        }
        let rest = crate::text::slice_chars(cs.as_slice(), p.len(), cs.len());
        let mut line = String::new();
        push_chars(&mut line, rest.as_slice());
        string_push(&mut line, '\n');
        proof {
            assert(Seq::<char>::empty() + rest@ == rest@);
            lemma_lines_push(out@, line);
        }
        out.push(line);
        proof {
            assert(lines_view(out@) =~= stripped_lines(l, i as int, j + 1, p@.len() as int));
        }
        j += 1;
    }
    (out, j)
}

/// Whether the line `s` is exactly `t`.
pub fn line_is(s: &str, t: &[char]) -> (res: bool)
    ensures
        res == (s@ == t@),
{
    let cs = chars_of(s);
    if cs.len() != t.len() {
        return false;
    }
    let n = t.len();
    for k in 0..n
        invariant
            n == t@.len(),
            cs@.len() == n,
            cs@ == s@,
            forall|m: int| 0 <= m < k ==> cs@[m] == t@[m],
    {
        if cs[k] != t[k] {
            assert(cs@[k as int] != t@[k as int]);
            return false;
        }
    }
    assert(cs@ =~= t@);
    true
}

/// Marker of a unified hunk line: `@@` and white space.
pub const PAT_UNIFIED: &'static str = r"^@@\s";

/// Marker of a context hunk: fifteen asterisks.
pub const PAT_CONTEXT: &'static str = r"^\*{15}";

/// A normal diff command such as `1,3c4,6`.
pub const PAT_NORMAL: &'static str = r"^\d+(?:,\d+)?[acd]\d+(?:,\d+)?$";

/// An RCS command such as `a3 2`.
pub const PAT_RCS: &'static str = r"^[ad]\d+\s+\d+$";

/// An ed command such as `3,5c`.
pub const PAT_ED: &'static str = r"^\d+(?:,\d+)?[acd]$";

/// Line prefix of CVS output.
pub const CVS_PREFIX: &'static str = "Index: ";

/// Line prefix of Perforce output.
pub const PERFORCE_PREFIX: &'static str = "==== ";

/// Prefix of the marker that the previous line had no final newline.
pub const NO_NEWLINE_MARKER: &'static str = "\\ No newline";

/// The generator named by the first line from `i` on that starts with
/// `Index: ` (CVS) or `==== ` (Perforce); plain diff when there is none.
pub open spec fn generator_from(l: Seq<Seq<char>>, i: int) -> DiffGenerator
    decreases l.len() - i,
{
    if i < 0 || i >= l.len() {
        DiffGenerator::Diff
    } else if starts_with(l[i], CVS_PREFIX@) {
        DiffGenerator::CvsDiff
    } else if starts_with(l[i], PERFORCE_PREFIX@) {
        DiffGenerator::Perforce
    } else {
        generator_from(l, i + 1)
    }
}

/// The format of line `s` alone, if it has a characteristic pattern; the
/// patterns are tried in the order unified, context, normal, RCS, ed.
pub open spec fn line_format(s: Seq<char>) -> DiffFormat {
    if regex_captures_of(PAT_UNIFIED@, s) is Some {
        DiffFormat::Unified
    } else if regex_captures_of(PAT_CONTEXT@, s) is Some {
        DiffFormat::Context
    } else if regex_captures_of(PAT_NORMAL@, s) is Some {
        DiffFormat::Normal
    } else if regex_captures_of(PAT_RCS@, s) is Some {
        DiffFormat::Rcs
    } else if regex_captures_of(PAT_ED@, s) is Some {
        DiffFormat::Ed
    } else {
        DiffFormat::Unknown
    }
}

/// The format of the first line from `i` on that has a characteristic
/// pattern; unknown when there is none.
pub open spec fn format_from(l: Seq<Seq<char>>, i: int) -> DiffFormat
    decreases l.len() - i,
{
    if i < 0 || i >= l.len() {
        DiffFormat::Unknown
    } else if line_format(l[i]) != DiffFormat::Unknown {
        line_format(l[i])
    } else {
        format_from(l, i + 1)
    }
}

/// Index of the last `'\n'` among the first `i` characters of `s`, or -1.
pub open spec fn last_newline_before(s: Seq<char>, i: int) -> int
    decreases i,
{
    if i <= 0 {
        -1
    } else if s[i - 1] == '\n' {
        i - 1
    } else {
        last_newline_before(s, i - 1)
    }
}

/// `s` cut at its last newline, when it has one.
pub open spec fn cut_at_last_newline(s: Seq<char>) -> Seq<char> {
    let p = last_newline_before(s, s.len() as int);
    if p >= 0 {
        s.subrange(0, p)
    } else {
        s
    }
}

/// The lines `rest` cleaned and appended to the kept lines `acc`: a line
/// that starts with `\ No newline` is dropped and the kept line before it
/// is cut at its last newline.
pub open spec fn clean_from(acc: Seq<Seq<char>>, rest: Seq<Seq<char>>) -> Seq<Seq<char>>
    decreases rest.len(),
{
    if rest.len() == 0 {
        acc
    } else if starts_with(rest[0], NO_NEWLINE_MARKER@) {
        let acc2 = if acc.len() > 0 {
            acc.update(acc.len() - 1, cut_at_last_newline(acc.last()))
        } else {
            acc
        };
        clean_from(acc2, rest.drop_first())
    } else {
        clean_from(acc.push(rest[0]), rest.drop_first())
    }
}

/// The file patches that the parser of format `f` reads from lines `l`; for
/// an unknown format unified parsing is tried first and normal parsing when
/// it finds nothing.
pub open spec fn files_for(l: Seq<Seq<char>>, f: DiffFormat) -> Seq<FilePatchModel> {
    match f {
        DiffFormat::Unified => unified::unified_from(l, 0),
        DiffFormat::Context => context::context_from(l, 0),
        DiffFormat::Normal => normal::normal_from(l, 0, None),
        DiffFormat::Ed => single_file(ed::ed_hunks(l, 0)),
        DiffFormat::Rcs => single_file(rcs::rcs_hunks(l, 0)),
        DiffFormat::Unknown => if unified::unified_from(l, 0).len() > 0 {
            unified::unified_from(l, 0)
        } else {
            normal::normal_from(l, 0, None)
        },
    }
}

/// The patch set parsed from diff text: its lines, cleaned of
/// `\ No newline` markers, with detected generator and format.
pub open spec fn parsed(input: Seq<char>) -> PatchSetModel {
    let l = clean_from(Seq::empty(), text_lines(input));
    PatchSetModel {
        files: files_for(l, format_from(l, 0)),
        format: format_from(l, 0),
        generator: generator_from(l, 0),
    }
}

/// `path` as diff output writes it: when it holds a space, backslashes and
/// quotes escaped with a backslash and the whole in double quotes.
pub open spec fn escaped_path(path: Seq<char>) -> Seq<char> {
    if path.contains(' ') {
        seq!['"'] + replace_all(replace_all(path, seq!['\\'], seq!['\\', '\\']), seq!['"'], seq!['\\', '"'])
            + seq!['"']
    } else {
        path
    }
}

/// `path` read back from diff output: trimmed, and when it is in double
/// quotes, unquoted with `\"` and then `\\` unescaped.
pub open spec fn unescaped_path(path: Seq<char>) -> Seq<char> {
    let t = trim(path);
    if t.len() >= 2 && t[0] == '"' && t.last() == '"' {
        replace_all(replace_all(t.subrange(1, t.len() - 1), seq!['\\', '"'], seq!['"']), seq!['\\', '\\'], seq!['\\'])
    } else {
        t
    }
}

/// Parser for diff/patch output in multiple formats.
///
/// Detects the generator (CVS, Perforce, plain diff) and the format
/// (unified, context, normal, ed, RCS), then hands the lines to the parser
/// of that format.
pub struct PatchParser;

impl PatchParser {
    pub fn new() -> (res: Self)
        ensures
            res == PatchParser,
    {
        PatchParser
    }

    /// Parse diff text from a string.
    pub fn parse_string(&self, input: &str) -> (res: Result<PatchSet, RCompareError>)
        ensures
            res matches Ok(ps) && ps@ == parsed(input@),
    {
        let cs = chars_of(input);
        let split = split_lines_chars(cs.as_slice());
        let mut lines_owned: Vec<String> = Vec::new();
        let n = split.len();
        for k in 0..n
            invariant
                n == split@.len(),
                lines_owned@.len() == k,
                forall|j: int| 0 <= j < k ==> (#[trigger] lines_owned@[j])@ == split@[j]@,
        {
            lines_owned.push(string_from_chars(split[k].as_slice()));
        }
        proof {
            assert(lines_view(lines_owned@) =~= split@.map_values(|l: Vec<char>| l@));
        }
        Self::clean_no_newline(&mut lines_owned);
        let mut lines: Vec<&str> = Vec::new();
        let m = lines_owned.len();
        for k in 0..m
            invariant
                m == lines_owned@.len(),
                lines@.len() == k,
                forall|j: int| 0 <= j < k ==> (#[trigger] lines@[j])@ == lines_owned@[j]@,
        {
            lines.push(lines_owned[k].as_str());
        }
        let ghost l = clean_from(Seq::empty(), text_lines(input@));
        assert(lines_model(lines@) =~= l);
        let generator = Self::detect_generator(lines.as_slice());
        let format = Self::detect_format(lines.as_slice());
        let file_patches = match format {
            DiffFormat::Unified => unified::parse_unified(lines.as_slice()),
            DiffFormat::Context => context::parse_context(lines.as_slice()),
            DiffFormat::Normal => normal::parse_normal(lines.as_slice()),
            DiffFormat::Ed => ed::parse_ed(lines.as_slice()),
            DiffFormat::Rcs => rcs::parse_rcs(lines.as_slice()),
            DiffFormat::Unknown => {
                let result = unified::parse_unified(lines.as_slice());
                match result {
                    Ok(v) => if v.len() > 0 {
                        Ok(v)
                    } else {
                        normal::parse_normal(lines.as_slice())
                    },
                    Err(e) => Err(e),
                }
            },
        };
        match file_patches {
            Ok(files) => Ok(PatchSet { files, format, generator }),
            Err(e) => Err(e),
        }
    }

    /// Detect which tool generated the diff output: a line starting with
    /// `Index: ` means CVS, one starting with `==== ` Perforce, and
    /// otherwise plain diff.
    pub fn detect_generator(lines: &[&str]) -> (res: DiffGenerator)
        ensures
            res == generator_from(lines_model(lines@), 0),
    {
        let ghost l = lines_model(lines@);
        let cvs = chars_of(CVS_PREFIX);
        let p4 = chars_of(PERFORCE_PREFIX);
        let n = lines.len();
        let mut i: usize = 0;
        while i < n
            invariant
                n == lines@.len(),
                l == lines_model(lines@),
                i <= n,
                cvs@ == CVS_PREFIX@,
                p4@ == PERFORCE_PREFIX@,
                generator_from(l, i as int) == generator_from(l, 0),
            decreases n - i,
        {
            let cs = chars_of(lines[i]);
            assert(l[i as int] == cs@);
            if has_prefix(cs.as_slice(), cvs.as_slice()) {
                return DiffGenerator::CvsDiff;
            }
            if has_prefix(cs.as_slice(), p4.as_slice()) {
                return DiffGenerator::Perforce;
            }
            i += 1;
        }
        DiffGenerator::Diff
    }

    /// Detect the diff output format from the first line with a
    /// characteristic pattern.
    pub fn detect_format(lines: &[&str]) -> (res: DiffFormat)
        ensures
            res == format_from(lines_model(lines@), 0),
    {
        let ghost l = lines_model(lines@);
        let n = lines.len();
        let mut i: usize = 0;
        while i < n
            invariant
                n == lines@.len(),
                l == lines_model(lines@),
                i <= n,
                format_from(l, i as int) == format_from(l, 0),
            decreases n - i,
        {
            let line = lines[i];
            assert(l[i as int] == line@);
            if regex_captures(PAT_UNIFIED, line).is_some() {
                return DiffFormat::Unified;
            }
            if regex_captures(PAT_CONTEXT, line).is_some() {
                return DiffFormat::Context;
            }
            if regex_captures(PAT_NORMAL, line).is_some() {
                return DiffFormat::Normal;
            }
            if regex_captures(PAT_RCS, line).is_some() {
                return DiffFormat::Rcs;
            }
            if regex_captures(PAT_ED, line).is_some() {
                return DiffFormat::Ed;
            }
            i += 1;
        }
        DiffFormat::Unknown
    }

    /// Remove `\ No newline at end of file` markers and cut the line before
    /// each at its last newline character.
    pub fn clean_no_newline(lines: &mut Vec<String>)
        ensures
            lines_view(final(lines)@) == clean_from(Seq::empty(), lines_view(old(lines)@)),
    {
        let ghost input = lines_view(lines@);
        let marker = chars_of(NO_NEWLINE_MARKER);
        let n = lines.len();
        let mut out: Vec<String> = Vec::new();
        let mut i: usize = 0;
        assert(lines_view(out@) =~= Seq::<Seq<char>>::empty());
        assert(input.subrange(0, n as int) =~= input);
        while i < n
            invariant
                n == lines@.len(),
                input == lines_view(lines@),
                marker@ == NO_NEWLINE_MARKER@,
                i <= n,
                clean_from(lines_view(out@), input.subrange(i as int, n as int)) == clean_from(
                    Seq::empty(),
                    input,
                ),
            decreases n - i,
        {
            let cs = chars_of(lines[i].as_str());
            assert(input[i as int] == cs@);
            assert(input.subrange(i as int, n as int).drop_first() =~= input.subrange(
                i + 1,
                n as int,
            ));
            if has_prefix(cs.as_slice(), marker.as_slice()) {
                if out.len() > 0 {
                    let ghost acc = lines_view(out@);
                    let last = out.len() - 1;
                    let prev = chars_of(out[last].as_str());
                    let cut = cut_last_newline(prev.as_slice());
                    out.set(last, string_from_chars(cut.as_slice()));
                    assert(lines_view(out@) =~= acc.update(
                        acc.len() - 1,
                        cut_at_last_newline(acc.last()),
                    ));
                }
            } else {
                let line = string_from_chars(cs.as_slice());
                proof {
                    lemma_lines_push(out@, line);
                }
                out.push(line);
            }
            i += 1;
        }
        assert(input.subrange(n as int, n as int) =~= Seq::<Seq<char>>::empty());
        *lines = out;
    }

    /// Escape a path for diff output (add quotes if it contains spaces).
    pub fn escape_path(path: &str) -> (res: String)
        ensures
            res@ == escaped_path(path@),
    {
        let cs = chars_of(path);
        if contains_char(cs.as_slice(), ' ') {
            let backslash = vec!['\\'];
            let doubled = vec!['\\', '\\'];
            let quote = vec!['"'];
            let escaped_quote = vec!['\\', '"'];
            assert(backslash@ =~= seq!['\\']);
            assert(doubled@ =~= seq!['\\', '\\']);
            assert(quote@ =~= seq!['"']);
            assert(escaped_quote@ =~= seq!['\\', '"']);
            let a = replace_chars(cs.as_slice(), backslash.as_slice(), doubled.as_slice());
            let b = replace_chars(a.as_slice(), quote.as_slice(), escaped_quote.as_slice());
            let mut res = String::new();
            string_push(&mut res, '"');
            push_chars(&mut res, b.as_slice());
            string_push(&mut res, '"');
            assert(res@ =~= seq!['"'] + b@ + seq!['"']);
            res
        } else {
            string_from_chars(cs.as_slice())
        }
    }

    /// Unescape a path from diff output (remove surrounding quotes and
    /// backslash escapes).
    pub fn unescape_path(path: &str) -> (res: String)
        ensures
            res@ == unescaped_path(path@),
    {
        let t = trim_chars(chars_of(path).as_slice());
        if t.len() >= 2 && t[0] == '"' && t[t.len() - 1] == '"' {
            let inner = slice_chars(t.as_slice(), 1, t.len() - 1);
            let backslash = vec!['\\'];
            let doubled = vec!['\\', '\\'];
            let quote = vec!['"'];
            let escaped_quote = vec!['\\', '"'];
            assert(backslash@ =~= seq!['\\']);
            assert(doubled@ =~= seq!['\\', '\\']);
            assert(quote@ =~= seq!['"']);
            assert(escaped_quote@ =~= seq!['\\', '"']);
            assert(inner@ =~= t@.subrange(1, t@.len() - 1));
            let a = replace_chars(inner.as_slice(), escaped_quote.as_slice(), quote.as_slice());
            let b = replace_chars(a.as_slice(), doubled.as_slice(), backslash.as_slice());
            string_from_chars(b.as_slice())
        } else {
            string_from_chars(t.as_slice())
        }
    }
}

/// `s` cut at its last newline, when it has one.
fn cut_last_newline(s: &[char]) -> (res: Vec<char>)
    ensures
        res@ == cut_at_last_newline(s@),
{
    let mut i = s.len();
    while i > 0 && s[i - 1] != '\n'
        invariant
            i <= s@.len(),
            last_newline_before(s@, i as int) == last_newline_before(s@, s@.len() as int),
        decreases i,
    {
        i -= 1;
    }
    if i > 0 {
        slice_chars(s, 0, i - 1)
    } else {
        slice_chars(s, 0, s.len())
    }
}

impl Default for PatchParser {
    fn default() -> (res: Self)
        ensures
            res == PatchParser,
    {
        Self::new()
    }
}

} // verus!
