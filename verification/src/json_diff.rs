//! Comparison of JSON (and YAML, read as JSON) documents: both documents
//! are flattened into paths such as `root.users[0].name` with their leaf
//! values, and the paths are compared in increasing order. Parsing is done
//! by the caller, which hands over the documents as `JsonValue`.

use crate::csv_diff::{insert_sorted, keys_view, strictly_sorted};
use crate::file_kinds::{extension_in, has_extension_in};
use crate::paths::{compare_text, PathOrder};
use crate::text::{chars_of, decimal, decimal_chars, string_from_chars};
use vstd::prelude::*;

verus! {

/// A JSON number: its value as the bit pattern of a 64-bit float, and its
/// text as the parser writes it back.
#[derive(Debug, Clone)]
pub struct JsonNumber {
    pub bits: u64,
    pub text: String,
}

/// A JSON document. Object members keep the order in which the parser
/// hands them out.
#[derive(Debug)]
pub enum JsonValue {
    Null,
    Bool(bool),
    Number(JsonNumber),
    String(String),
    Array(Vec<JsonValue>),
    Object(Vec<(String, JsonValue)>),
}

/// How a path differs.
#[derive(Debug, Clone, Copy, PartialEq, Eq, Structural)]
pub enum PathDiffType {
    /// Value exists in both but differs.
    ValueDifferent,
    /// Type differs (e.g., string vs number).
    TypeDifferent,
    /// Path only exists in left.
    LeftOnly,
    /// Path only exists in right.
    RightOnly,
}

/// A difference at one path.
#[derive(Debug, Clone)]
pub struct PathDiff {
    /// JSON path (e.g., "root.users[0].name").
    pub path: String,
    pub diff_type: PathDiffType,
    /// Left value, as text.
    pub left_value: String,
    /// Right value, as text.
    pub right_value: String,
}

/// Result of a JSON/YAML comparison.
#[derive(Debug, Clone)]
pub struct JsonDiffResult {
    /// Total number of paths compared.
    pub total_paths: usize,
    pub different_paths: usize,
    pub left_only_paths: usize,
    pub right_only_paths: usize,
    pub identical_paths: usize,
    /// Path differences, up to the engine's limit.
    pub path_diffs: Vec<PathDiff>,
}

/// Settings of a JSON comparison.
pub struct JsonDiffEngine {
    pub max_path_diffs: usize,
}

/// Model of a leaf value: kind (0 null, 1 boolean, 2 number, 3 string,
/// 4 array, 5 object), boolean, number bits, and text (number or string).
pub type LeafModel = (u8, bool, u64, Seq<char>);

/// Model of a path difference.
pub type PathDiffModel = (Seq<char>, PathDiffType, Seq<char>, Seq<char>);

/// Running counts: different, left only, right only, identical paths, and
/// the recorded differences.
pub type PathTally = (int, int, int, int, Seq<PathDiffModel>);

/// The leaf model of a value.
pub open spec fn leaf_of(v: JsonValue) -> LeafModel {
    match v {
        JsonValue::Null => (0u8, false, 0u64, Seq::empty()),
        JsonValue::Bool(b) => (1u8, b, 0u64, Seq::empty()),
        JsonValue::Number(n) => (2u8, false, n.bits, n.text@),
        JsonValue::String(s) => (3u8, false, 0u64, s@),
        JsonValue::Array(_) => (4u8, false, 0u64, Seq::empty()),
        JsonValue::Object(_) => (5u8, false, 0u64, Seq::empty()),
    }
}

/// The path of member `key` under `prefix`.
pub open spec fn member_path(prefix: Seq<char>, key: Seq<char>) -> Seq<char> {
    prefix + seq!['.'] + key
}

/// The path of element `i` under `prefix`.
pub open spec fn index_path(prefix: Seq<char>, i: nat) -> Seq<char> {
    prefix + seq!['['] + decimal(i) + seq![']']
}

/// The leaves of a value under `prefix`, in document order: a scalar is
/// one leaf; arrays and objects hand on to their elements (an empty one
/// has no leaf).
pub open spec fn flat(prefix: Seq<char>, v: JsonValue) -> Seq<(Seq<char>, LeafModel)>
    decreases v, 0int,
{
    match v {
        JsonValue::Array(a) => flat_items(prefix, a, a.len() as int),
        JsonValue::Object(o) => flat_members(prefix, o, o.len() as int),
        _ => seq![(prefix, leaf_of(v))],
    }
}

/// The leaves of the first `n` elements of an array.
pub open spec fn flat_items(prefix: Seq<char>, a: Vec<JsonValue>, n: int) -> Seq<(Seq<char>, LeafModel)>
    decreases a, n,
{
    if n <= 0 || n > a.len() {
        Seq::empty()
    } else {
        flat_items(prefix, a, n - 1) + flat(index_path(prefix, (n - 1) as nat), a[n - 1])
    }
}

/// The leaves of the first `n` members of an object.
pub open spec fn flat_members(prefix: Seq<char>, o: Vec<(String, JsonValue)>, n: int) -> Seq<
    (Seq<char>, LeafModel),
>
    decreases o, n,
{
    if n <= 0 || n > o.len() {
        Seq::empty()
    } else {
        flat_members(prefix, o, n - 1) + flat(member_path(prefix, o[n - 1].0@), o[n - 1].1)
    }
}

/// A flattened leaf: its path and value.
struct FlatEntry {
    path: Vec<char>,
    kind: u8,
    flag: bool,
    bits: u64,
    text: Vec<char>,
}

spec fn entry_view(e: FlatEntry) -> (Seq<char>, LeafModel) {
    (e.path@, (e.kind, e.flag, e.bits, e.text@))
}

spec fn entries_view(v: Seq<FlatEntry>) -> Seq<(Seq<char>, LeafModel)> {
    v.map_values(|e: FlatEntry| entry_view(e))
}

/// Appends a character sequence and a character to a copy of `prefix`.
fn extend_path(prefix: &Vec<char>, open: char, middle: &Vec<char>, close: Option<char>) -> (res: Vec<char>)
    ensures
        res@ == prefix@ + seq![open] + middle@ + match close {
            Some(c) => seq![c],
            None => Seq::<char>::empty(),
        },
{
    let mut p: Vec<char> = Vec::new();
    let n = prefix.len();
    for i in 0..n
        invariant
            n == prefix@.len(),
            p@ == prefix@.take(i as int),
    {
        p.push(prefix[i]);
        assert(p@ =~= prefix@.take(i + 1));
    }
    assert(prefix@.take(n as int) =~= prefix@);
    p.push(open);
    let ghost base = p@;
    let m = middle.len();
    for i in 0..m
        invariant
            m == middle@.len(),
            p@ == base + middle@.take(i as int),
    {
        p.push(middle[i]);
        assert(p@ =~= base + middle@.take(i + 1));
    }
    assert(middle@.take(m as int) =~= middle@);
    match close {
        Some(c) => {
            p.push(c);
        },
        None => {},
    }
    assert(p@ =~= prefix@ + seq![open] + middle@ + match close {
        Some(c) => seq![c],
        None => Seq::<char>::empty(),
    });
    p
}

/// The leaf entry of a scalar value.
fn leaf_entry(prefix: &Vec<char>, v: &JsonValue) -> (res: FlatEntry)
    ensures
        entry_view(res) == (prefix@, leaf_of(*v)),
{
    let path = string_from_chars(prefix.as_slice());
    let path = chars_of(path.as_str());
    match v {
        JsonValue::Null => FlatEntry { path, kind: 0, flag: false, bits: 0, text: Vec::new() },
        JsonValue::Bool(b) => FlatEntry { path, kind: 1, flag: *b, bits: 0, text: Vec::new() },
        JsonValue::Number(n) => FlatEntry { path, kind: 2, flag: false, bits: n.bits, text: chars_of(n.text.as_str()) },
        JsonValue::String(t) => FlatEntry { path, kind: 3, flag: false, bits: 0, text: chars_of(t.as_str()) },
        JsonValue::Array(_) => FlatEntry { path, kind: 4, flag: false, bits: 0, text: Vec::new() },
        JsonValue::Object(_) => FlatEntry { path, kind: 5, flag: false, bits: 0, text: Vec::new() },
    }
}

/// Appends the leaves of `v` under `prefix` to `out`.
fn flatten(prefix: &Vec<char>, v: &JsonValue, out: &mut Vec<FlatEntry>)
    ensures
        entries_view(final(out)@) == entries_view(old(out)@) + flat(prefix@, *v),
    decreases v,
{
    match v {
        JsonValue::Array(a) => {
            let ghost start = entries_view(out@);
            let n = a.len();
            for i in 0..n
                invariant
                    n == a@.len(),
                    *v == JsonValue::Array(*a),
                    entries_view(out@) == start + flat_items(prefix@, *a, i as int),
            {
                let digits = decimal_chars(i);
                let path = extend_path(prefix, '[', &digits, Some(']'));
                assert(path@ =~= index_path(prefix@, i as nat));
                let ghost before = entries_view(out@);
                proof {
                    assert(decreases_to!(*v => (*v)->Array_0));
                    assert(decreases_to!(*a => a[i as int]));
                    assert(decreases_to!(*v => a[i as int]));
                }
                flatten(&path, &a[i], out);
                assert(entries_view(out@) =~= start + flat_items(prefix@, *a, i + 1));
            }
        },
        JsonValue::Object(o) => {
            let ghost start = entries_view(out@);
            let n = o.len();
            for i in 0..n
                invariant
                    n == o@.len(),
                    *v == JsonValue::Object(*o),
                    entries_view(out@) == start + flat_members(prefix@, *o, i as int),
            {
                let key = chars_of(o[i].0.as_str());
                let path = extend_path(prefix, '.', &key, None);
                assert(path@ =~= member_path(prefix@, o[i as int].0@));
                proof {
                    assert(decreases_to!(*v => (*v)->Object_0));
                    assert(decreases_to!(*o => o[i as int]));
                    assert(decreases_to!(o[i as int] => o[i as int].1));
                    assert(decreases_to!(*v => o[i as int].1));
                }
                flatten(&path, &o[i].1, out);
                assert(entries_view(out@) =~= start + flat_members(prefix@, *o, i + 1));
            }
        },
        _ => {
            let e = leaf_entry(prefix, v);
            let ghost before = entries_view(out@);
            out.push(e);
            assert(entries_view(out@) =~= before + flat(prefix@, *v));
        },
    }
}

pub const NULL_TEXT: &'static str = "null";
pub const TRUE_TEXT: &'static str = "true";
pub const FALSE_TEXT: &'static str = "false";
pub const ARRAY_TEXT: &'static str = "[array]";
pub const OBJECT_TEXT: &'static str = "{object}";
pub const MISSING_TEXT: &'static str = "(missing)";
pub const ROOT_PATH: &'static str = "root";

/// The leaf at path `p`: the last one flattened to it.
pub open spec fn leaf_at(entries: Seq<(Seq<char>, LeafModel)>, p: Seq<char>) -> Option<LeafModel>
    decreases entries.len(),
{
    if entries.len() == 0 {
        None
    } else if entries.last().0 == p {
        Some(entries.last().1)
    } else {
        leaf_at(entries.drop_last(), p)
    }
}

/// The bit patterns of positive and negative zero.
pub open spec fn is_zero_bits(b: u64) -> bool {
    b == 0 || b == 0x8000_0000_0000_0000u64
}

/// Two leaves are equal: same kind, and equal boolean, number value or
/// string; arrays and objects are never equal.
pub open spec fn leaves_equal(a: LeafModel, b: LeafModel) -> bool {
    a.0 == b.0 && if a.0 == 0 {
        true
    } else if a.0 == 1 {
        a.1 == b.1
    } else if a.0 == 2 {
        a.2 == b.2 || (is_zero_bits(a.2) && is_zero_bits(b.2))
    } else if a.0 == 3 {
        a.3 == b.3
    } else {
        false
    }
}

/// How a leaf is shown in a difference.
pub open spec fn display(l: LeafModel) -> Seq<char> {
    if l.0 == 0 {
        NULL_TEXT@
    } else if l.0 == 1 {
        if l.1 {
            TRUE_TEXT@
        } else {
            FALSE_TEXT@
        }
    } else if l.0 == 2 {
        l.3
    } else if l.0 == 3 {
        seq!['"'] + l.3 + seq!['"']
    } else if l.0 == 4 {
        ARRAY_TEXT@
    } else {
        OBJECT_TEXT@
    }
}

/// Records a difference while fewer than `max` are recorded.
pub open spec fn record_path(v: Seq<PathDiffModel>, max: int, d: PathDiffModel) -> Seq<PathDiffModel> {
    if v.len() < max {
        v.push(d)
    } else {
        v
    }
}

/// One path of the comparison.
pub open spec fn path_step(max: int, t: PathTally, p: Seq<char>, l: Option<LeafModel>, r: Option<LeafModel>) -> PathTally {
    match (l, r) {
        (Some(a), Some(b)) => if leaves_equal(a, b) {
            (t.0, t.1, t.2, t.3 + 1, t.4)
        } else {
            let kind = if a.0 != b.0 { PathDiffType::TypeDifferent } else { PathDiffType::ValueDifferent };
            (t.0 + 1, t.1, t.2, t.3, record_path(t.4, max, (p, kind, display(a), display(b))))
        },
        (Some(a), None) => (t.0, t.1 + 1, t.2, t.3, record_path(t.4, max, (p, PathDiffType::LeftOnly, display(a), MISSING_TEXT@))),
        (None, Some(b)) => (t.0, t.1, t.2 + 1, t.3, record_path(t.4, max, (p, PathDiffType::RightOnly, MISSING_TEXT@, display(b)))),
        (None, None) => t,
    }
}

/// The comparison of the leaves at `paths`, in order.
pub open spec fn paths_fold(
    max: int,
    l: Seq<(Seq<char>, LeafModel)>,
    r: Seq<(Seq<char>, LeafModel)>,
    paths: Seq<Seq<char>>,
) -> PathTally
    decreases paths.len(),
{
    if paths.len() == 0 {
        (0, 0, 0, 0, Seq::empty())
    } else {
        path_step(
            max,
            paths_fold(max, l, r, paths.drop_last()),
            paths.last(),
            leaf_at(l, paths.last()),
            leaf_at(r, paths.last()),
        )
    }
}

pub open spec fn path_diff_view(d: PathDiff) -> PathDiffModel {
    (d.path@, d.diff_type, d.left_value@, d.right_value@)
}

pub open spec fn path_diffs_view(v: Seq<PathDiff>) -> Seq<PathDiffModel> {
    v.map_values(|d: PathDiff| path_diff_view(d))
}

/// The comparison of two documents, whose leaf paths, taken together and
/// in increasing order, are `paths`.
pub open spec fn documents_ok(max: int, left: JsonValue, right: JsonValue, paths: Seq<Seq<char>>, res: JsonDiffResult) -> bool {
    let l = flat(ROOT_PATH@, left);
    let r = flat(ROOT_PATH@, right);
    let t = paths_fold(max, l, r, paths);
    &&& strictly_sorted(paths)
    &&& forall|p: Seq<char>| paths.contains(p) <==> (leaf_at(l, p) is Some || leaf_at(r, p) is Some)
    &&& res.total_paths == paths.len()
    &&& res.different_paths == t.0
    &&& res.left_only_paths == t.1
    &&& res.right_only_paths == t.2
    &&& res.identical_paths == t.3
    &&& path_diffs_view(res.path_diffs@) == t.4
}

proof fn lemma_leaf_at_some(s: Seq<(Seq<char>, LeafModel)>, p: Seq<char>)
    ensures
        leaf_at(s, p) is Some <==> exists|j: int| 0 <= j < s.len() && s[j].0 == p,
    decreases s.len(),
{
    if s.len() > 0 {
        lemma_leaf_at_some(s.drop_last(), p);
        if s.last().0 != p {
            assert forall|j: int| 0 <= j < s.len() && s[j].0 == p implies 0 <= j < s.drop_last().len()
                && s.drop_last()[j].0 == p by {}
        } else {
            assert(s[s.len() - 1].0 == p);
        }
    }
}

/// The entry at path `p`: the last one.
fn entry_at<'a>(entries: &'a Vec<FlatEntry>, p: &Vec<char>) -> (res: Option<&'a FlatEntry>)
    ensures
        match res {
            Some(e) => leaf_at(entries_view(entries@), p@) == Some(entry_view(*e).1),
            None => leaf_at(entries_view(entries@), p@) is None,
        },
{
    let ghost ev = entries_view(entries@);
    let mut i = entries.len();
    assert(ev.take(i as int) =~= ev);
    while i > 0
        invariant
            i <= entries@.len(),
            ev == entries_view(entries@),
            leaf_at(ev, p@) == leaf_at(ev.take(i as int), p@),
        decreases i,
    {
        i = i - 1;
        proof {
            let t = ev.take(i + 1);
            assert(t.drop_last() =~= ev.take(i as int));
            assert(t.last() == ev[i as int]);
        }
        match compare_text(&entries[i].path, p) {
            PathOrder::Equal => {
                return Some(&entries[i]);
            },
            _ => {},
        }
    }
    None
}

/// Whether two leaves are equal.
fn leaves_equal_exec(a: &FlatEntry, b: &FlatEntry) -> (res: bool)
    ensures
        res == leaves_equal(entry_view(*a).1, entry_view(*b).1),
{
    if a.kind != b.kind {
        false
    } else if a.kind == 0 {
        true
    } else if a.kind == 1 {
        a.flag == b.flag
    } else if a.kind == 2 {
        let za = a.bits == 0 || a.bits == 0x8000_0000_0000_0000u64;
        let zb = b.bits == 0 || b.bits == 0x8000_0000_0000_0000u64;
        a.bits == b.bits || (za && zb)
    } else if a.kind == 3 {
        match compare_text(&a.text, &b.text) {
            PathOrder::Equal => true,
            _ => false,
        }
    } else {
        false
    }
}

/// How a leaf is shown in a difference.
fn display_exec(e: &FlatEntry) -> (res: String)
    ensures
        res@ == display(entry_view(*e).1),
{
    if e.kind == 0 {
        NULL_TEXT.to_owned()
    } else if e.kind == 1 {
        if e.flag {
            TRUE_TEXT.to_owned()
        } else {
            FALSE_TEXT.to_owned()
        }
    } else if e.kind == 2 {
        string_from_chars(e.text.as_slice())
    } else if e.kind == 3 {
        let mut s = String::new();
        crate::text::string_push(&mut s, '"');
        crate::text::push_chars(&mut s, e.text.as_slice());
        crate::text::string_push(&mut s, '"');
        assert(s@ =~= seq!['"'] + e.text@ + seq!['"']);
        s
    } else if e.kind == 4 {
        ARRAY_TEXT.to_owned()
    } else {
        OBJECT_TEXT.to_owned()
    }
}

/// Adds the paths of `entries` to sorted `keys`.
fn add_paths(keys: &mut Vec<Vec<char>>, entries: &Vec<FlatEntry>)
    requires
        strictly_sorted(keys_view(old(keys)@)),
    ensures
        strictly_sorted(keys_view(final(keys)@)),
        forall|x: Seq<char>|
            #[trigger] keys_view(final(keys)@).contains(x) <==> (keys_view(old(keys)@).contains(x) || exists|j: int|
                0 <= j < entries@.len() && entries@[j].path@ == x),
{
    let ghost start = keys_view(keys@);
    let n = entries.len();
    for i in 0..n
        invariant
            n == entries@.len(),
            start == keys_view(old(keys)@),
            strictly_sorted(keys_view(keys@)),
            forall|x: Seq<char>|
                #[trigger] keys_view(keys@).contains(x) <==> (start.contains(x) || exists|j: int|
                    0 <= j < i && entries@[j].path@ == x),
    {
        let cs = crate::text::slice_chars(entries[i].path.as_slice(), 0, entries[i].path.len());
        let ghost before = keys_view(keys@);
        let ghost keys_before = *keys;
        let ghost nm = cs@;
        assert(nm =~= entries@[i as int].path@);
        insert_sorted(keys, cs);
        assert forall|x: Seq<char>|
            keys_view(keys@).contains(x) <==> (start.contains(x) || exists|j: int|
                0 <= j < i + 1 && entries@[j].path@ == x) by {
            assert(keys_view(keys@).contains(x) <==> (before.contains(x) || x == nm));
            assert(before.contains(x) <==> (start.contains(x) || exists|j: int| 0 <= j < i && entries@[j].path@ == x)) by {
                assert(before == keys_view(keys_before@));
            }
            if x == nm {
                assert(0 <= i < i + 1 && entries@[i as int].path@ == x);
            }
            if exists|j: int| 0 <= j < i + 1 && entries@[j].path@ == x {
                let j = choose|j: int| 0 <= j < i + 1 && entries@[j].path@ == x;
                if j < i {
                    assert(0 <= j < i && entries@[j].path@ == x);
                } else {
                    assert(x == nm);
                }
            }
            if exists|j: int| 0 <= j < i && entries@[j].path@ == x {
                let j = choose|j: int| 0 <= j < i && entries@[j].path@ == x;
                assert(0 <= j < i + 1 && entries@[j].path@ == x);
            }
        }
    }
}

/// Running counts of a comparison.
struct PathCounts {
    different: usize,
    left_only: usize,
    right_only: usize,
    identical: usize,
    diffs: Vec<PathDiff>,
}

spec fn path_counts_view(c: PathCounts) -> PathTally {
    (c.different as int, c.left_only as int, c.right_only as int, c.identical as int, path_diffs_view(c.diffs@))
}

spec fn opt_entry_view(e: Option<&FlatEntry>) -> Option<LeafModel> {
    match e {
        Some(x) => Some(entry_view(*x).1),
        None => None,
    }
}

fn record_path_exec(v: &mut Vec<PathDiff>, max: usize, d: PathDiff)
    ensures
        path_diffs_view(final(v)@) == record_path(path_diffs_view(old(v)@), max as int, path_diff_view(d)),
{
    if v.len() < max {
        let ghost before = v@;
        v.push(d);
        assert(path_diffs_view(v@) =~= path_diffs_view(before).push(path_diff_view(d)));
    }
}

impl JsonDiffEngine {
    pub fn new() -> (res: Self)
        ensures
            res.max_path_diffs == 100,
    {
        JsonDiffEngine { max_path_diffs: 100 }
    }

    pub fn with_max_path_diffs(self, max: usize) -> (res: Self)
        ensures
            res.max_path_diffs == max,
    {
        JsonDiffEngine { max_path_diffs: max }
    }

    /// Compares two documents path by path.
    pub fn compare_json_values(&self, left: &JsonValue, right: &JsonValue) -> (res: Result<JsonDiffResult, crate::error::RCompareError>)
        ensures
            res is Ok,
            exists|paths: Seq<Seq<char>>| documents_ok(self.max_path_diffs as int, *left, *right, paths, res->Ok_0),
    {
        let root = chars_of(ROOT_PATH);
        let mut le: Vec<FlatEntry> = Vec::new();
        let mut re: Vec<FlatEntry> = Vec::new();
        flatten(&root, left, &mut le);
        flatten(&root, right, &mut re);
        let ghost lv = entries_view(le@);
        let ghost rv = entries_view(re@);
        assert(lv =~= flat(ROOT_PATH@, *left));
        assert(rv =~= flat(ROOT_PATH@, *right));
        let ghost max = self.max_path_diffs as int;
        let mut keys: Vec<Vec<char>> = Vec::new();
        assert(keys_view(keys@) =~= Seq::<Seq<char>>::empty());
        add_paths(&mut keys, &le);
        add_paths(&mut keys, &re);
        let ghost ks = keys_view(keys@);
        proof {
            assert forall|x: Seq<char>| ks.contains(x) <==> (leaf_at(lv, x) is Some || leaf_at(rv, x) is Some) by {
                lemma_leaf_at_some(lv, x);
                lemma_leaf_at_some(rv, x);
                if exists|j: int| 0 <= j < le@.len() && le@[j].path@ == x {
                    let j = choose|j: int| 0 <= j < le@.len() && le@[j].path@ == x;
                    assert(lv[j].0 == x);
                }
                if exists|j: int| 0 <= j < lv.len() && lv[j].0 == x {
                    let j = choose|j: int| 0 <= j < lv.len() && lv[j].0 == x;
                    assert(le@[j].path@ == x);
                }
                if exists|j: int| 0 <= j < re@.len() && re@[j].path@ == x {
                    let j = choose|j: int| 0 <= j < re@.len() && re@[j].path@ == x;
                    assert(rv[j].0 == x);
                }
                if exists|j: int| 0 <= j < rv.len() && rv[j].0 == x {
                    let j = choose|j: int| 0 <= j < rv.len() && rv[j].0 == x;
                    assert(re@[j].path@ == x);
                }
            }
        }
        let mut c = PathCounts { different: 0, left_only: 0, right_only: 0, identical: 0, diffs: Vec::new() };
        assert(path_counts_view(c) =~= paths_fold(max, lv, rv, ks.take(0)));
        let nk = keys.len();
        for t in 0..nk
            invariant
                nk == keys@.len(),
                ks == keys_view(keys@),
                lv == entries_view(le@),
                rv == entries_view(re@),
                max == self.max_path_diffs as int,
                path_counts_view(c) == paths_fold(max, lv, rv, ks.take(t as int)),
                c.different + c.left_only + c.right_only + c.identical <= t,
        {
            let l = entry_at(&le, &keys[t]);
            let r = entry_at(&re, &keys[t]);
            let ghost p = ks[t as int];
            assert(ks.take(t + 1).drop_last() =~= ks.take(t as int));
            assert(ks.take(t + 1).last() == p);
            assert(opt_entry_view(l) == leaf_at(lv, p));
            assert(opt_entry_view(r) == leaf_at(rv, p));
            match (l, r) {
                (Some(a), Some(b)) => {
                    if leaves_equal_exec(a, b) {
                        c.identical = c.identical + 1;
                    } else {
                        c.different = c.different + 1;
                        let kind = if a.kind != b.kind { PathDiffType::TypeDifferent } else { PathDiffType::ValueDifferent };
                        let d = PathDiff {
                            path: string_from_chars(keys[t].as_slice()),
                            diff_type: kind,
                            left_value: display_exec(a),
                            right_value: display_exec(b),
                        };
                        record_path_exec(&mut c.diffs, self.max_path_diffs, d);
                    }
                },
                (Some(a), None) => {
                    c.left_only = c.left_only + 1;
                    let d = PathDiff {
                        path: string_from_chars(keys[t].as_slice()),
                        diff_type: PathDiffType::LeftOnly,
                        left_value: display_exec(a),
                        right_value: MISSING_TEXT.to_owned(),
                    };
                    record_path_exec(&mut c.diffs, self.max_path_diffs, d);
                },
                (None, Some(b)) => {
                    c.right_only = c.right_only + 1;
                    let d = PathDiff {
                        path: string_from_chars(keys[t].as_slice()),
                        diff_type: PathDiffType::RightOnly,
                        left_value: MISSING_TEXT.to_owned(),
                        right_value: display_exec(b),
                    };
                    record_path_exec(&mut c.diffs, self.max_path_diffs, d);
                },
                (None, None) => {},
            }
        }
        assert(ks.take(nk as int) =~= ks);
        let res = JsonDiffResult {
            total_paths: nk,
            different_paths: c.different,
            left_only_paths: c.left_only,
            right_only_paths: c.right_only,
            identical_paths: c.identical,
            path_diffs: c.diffs,
        };
        assert(documents_ok(max, *left, *right, ks, res));
        let out: Result<JsonDiffResult, crate::error::RCompareError> = Ok(res);
        assert(documents_ok(max, *left, *right, ks, out->Ok_0));
        out
    }
}

impl Default for JsonDiffEngine {
    fn default() -> (res: Self)
        ensures
            res.max_path_diffs == 100,
    {
        Self::new()
    }
}

/// Extensions of JSON files.
pub const JSON_EXTENSIONS: [&'static str; 3] = ["json", "jsonc", "json5"];

/// Extensions of YAML files.
pub const YAML_EXTENSIONS: [&'static str; 2] = ["yaml", "yml"];

/// Whether a file is a JSON file, by its extension.
pub fn is_json_file(path: &str) -> (res: bool)
    ensures
        res == extension_in(path@, JSON_EXTENSIONS@),
{
    has_extension_in(path, &JSON_EXTENSIONS)
}

/// Whether a file is a YAML file, by its extension.
pub fn is_yaml_file(path: &str) -> (res: bool)
    ensures
        res == extension_in(path@, YAML_EXTENSIONS@),
{
    has_extension_in(path, &YAML_EXTENSIONS)
}

/// Whether every leaf of a flattened document is a scalar.
pub open spec fn all_scalars(s: Seq<(Seq<char>, LeafModel)>) -> bool {
    forall|i: int| 0 <= i < s.len() ==> (#[trigger] s[i]).1.0 <= 3
}

/// Flattening yields scalar leaves only.
pub proof fn lemma_flat_scalars(prefix: Seq<char>, v: JsonValue)
    ensures
        all_scalars(flat(prefix, v)),
    decreases v, 0int,
{
    match v {
        JsonValue::Array(a) => {
            lemma_items_scalars(prefix, a, a.len() as int);
        },
        JsonValue::Object(o) => {
            lemma_members_scalars(prefix, o, o.len() as int);
        },
        _ => {},
    }
}

proof fn lemma_items_scalars(prefix: Seq<char>, a: Vec<JsonValue>, n: int)
    ensures
        all_scalars(flat_items(prefix, a, n)),
    decreases a, n,
{
    if 0 < n <= a.len() {
        lemma_items_scalars(prefix, a, n - 1);
        assert(decreases_to!(a => a[n - 1]));
        lemma_flat_scalars(index_path(prefix, (n - 1) as nat), a[n - 1]);
    }
}

proof fn lemma_members_scalars(prefix: Seq<char>, o: Vec<(String, JsonValue)>, n: int)
    ensures
        all_scalars(flat_members(prefix, o, n)),
    decreases o, n,
{
    if 0 < n <= o.len() {
        lemma_members_scalars(prefix, o, n - 1);
        assert(decreases_to!(o => o[n - 1]));
        assert(decreases_to!(o[n - 1] => o[n - 1].1));
        lemma_flat_scalars(member_path(prefix, o[n - 1].0@), o[n - 1].1);
    }
}

proof fn lemma_leaf_at_member(s: Seq<(Seq<char>, LeafModel)>, p: Seq<char>)
    ensures
        leaf_at(s, p) matches Some(x) ==> exists|j: int| 0 <= j < s.len() && s[j].1 == x,
    decreases s.len(),
{
    if s.len() > 0 {
        lemma_leaf_at_member(s.drop_last(), p);
        if s.last().0 == p {
            assert(s[s.len() - 1].1 == s.last().1);
        } else if leaf_at(s, p) is Some {
            let j = choose|j: int| 0 <= j < s.drop_last().len() && s.drop_last()[j].1 == leaf_at(s, p)->0;
            assert(s[j] == s.drop_last()[j]);
        }
    }
}

proof fn lemma_fold_self(max: int, l: Seq<(Seq<char>, LeafModel)>, paths: Seq<Seq<char>>, n: int)
    requires
        0 <= n <= paths.len(),
        all_scalars(l),
        forall|i: int| 0 <= i < paths.len() ==> leaf_at(l, #[trigger] paths[i]) is Some,
    ensures
        paths_fold(max, l, l, paths.take(n)) == (0int, 0int, 0int, n, Seq::<PathDiffModel>::empty()),
    decreases n,
{
    if n > 0 {
        lemma_fold_self(max, l, paths, n - 1);
        assert(paths.take(n).drop_last() =~= paths.take(n - 1));
        assert(paths.take(n).last() == paths[n - 1]);
        lemma_leaf_at_member(l, paths[n - 1]);
        assert(leaf_at(l, paths[n - 1]) is Some);
    }
}

/// Comparing a document with itself finds every path identical and
/// records no difference.
pub proof fn lemma_json_self(max: int, v: JsonValue, paths: Seq<Seq<char>>, res: JsonDiffResult)
    requires
        documents_ok(max, v, v, paths, res),
    ensures
        res.identical_paths == res.total_paths,
        res.different_paths == 0,
        res.left_only_paths == 0,
        res.right_only_paths == 0,
        res.path_diffs@.len() == 0,
{
    let l = flat(ROOT_PATH@, v);
    lemma_flat_scalars(ROOT_PATH@, v);
    assert forall|i: int| 0 <= i < paths.len() implies leaf_at(l, #[trigger] paths[i]) is Some by {
        assert(paths.contains(paths[i]));
    }
    lemma_fold_self(max, l, paths, paths.len() as int);
    assert(paths.take(paths.len() as int) =~= paths);
    assert(path_diffs_view(res.path_diffs@).len() == 0);
    assert(path_diffs_view(res.path_diffs@).len() == res.path_diffs@.len());
}


/// When two leaf values are equal: two nulls always; two booleans exactly
/// when they are the same boolean; two strings exactly when they hold the
/// same text; two numbers at least when they have the same bits; arrays,
/// objects and values of different kinds never.
pub proof fn lemma_leaf_equality(a: JsonValue, b: JsonValue)
    ensures
        match (a, b) {
            (JsonValue::Null, JsonValue::Null) => leaves_equal(leaf_of(a), leaf_of(b)),
            (JsonValue::Bool(x), JsonValue::Bool(y)) => leaves_equal(leaf_of(a), leaf_of(b)) == (x == y),
            (JsonValue::String(x), JsonValue::String(y)) => leaves_equal(leaf_of(a), leaf_of(b)) == (x@ == y@),
            (JsonValue::Number(x), JsonValue::Number(y)) => x.bits == y.bits ==> leaves_equal(leaf_of(a), leaf_of(b)),
            _ => !leaves_equal(leaf_of(a), leaf_of(b)),
        },
{
}


/// Each path with a leaf on some side is counted exactly once: as
/// different, left only, right only or identical.
proof fn lemma_paths_fold_partition(
    max: int,
    l: Seq<(Seq<char>, LeafModel)>,
    r: Seq<(Seq<char>, LeafModel)>,
    paths: Seq<Seq<char>>,
)
    requires
        forall|p: Seq<char>| paths.contains(p) ==> (leaf_at(l, p) is Some || leaf_at(r, p) is Some),
    ensures
        paths_fold(max, l, r, paths).0 + paths_fold(max, l, r, paths).1 + paths_fold(max, l, r, paths).2
            + paths_fold(max, l, r, paths).3 == paths.len(),
    decreases paths.len(),
{
    if paths.len() > 0 {
        assert forall|p: Seq<char>| paths.drop_last().contains(p) implies (leaf_at(l, p) is Some || leaf_at(r, p) is Some) by {
            let j = choose|j: int| 0 <= j < paths.drop_last().len() && paths.drop_last()[j] == p;
            assert(paths[j] == p);
            assert(paths.contains(p));
        }
        lemma_paths_fold_partition(max, l, r, paths.drop_last());
        assert(paths[paths.len() - 1] == paths.last());
        assert(paths.contains(paths.last()));
    }
}

/// The counts of a document comparison add up: every path is different,
/// only on the left, only on the right or identical, and exactly one of
/// these.
pub proof fn lemma_document_counts_partition(max: int, left: JsonValue, right: JsonValue, paths: Seq<Seq<char>>, res: JsonDiffResult)
    requires
        documents_ok(max, left, right, paths, res),
    ensures
        res.different_paths + res.left_only_paths + res.right_only_paths + res.identical_paths == res.total_paths,
{
    lemma_paths_fold_partition(max, flat(ROOT_PATH@, left), flat(ROOT_PATH@, right), paths);
}

} // verus!
