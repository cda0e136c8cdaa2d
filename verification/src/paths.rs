//! Paths as sequences of components, the way `std::path::Path` reads them
//! on Unix: `/` separates components, repeated separators and `.` inside a
//! path are ignored, a leading `/` is the root and a leading `.` the
//! current directory. Paths are equal when their components are, and are
//! ordered by their components.

use crate::text::chars_of;
use vstd::prelude::*;

verus! {

/// Kind of the root component.
pub const ROOT_DIR: u8 = 1;

/// Kind of a leading `.` component.
pub const CUR_DIR: u8 = 2;

/// Kind of a `..` component.
pub const PARENT_DIR: u8 = 3;

/// Kind of a named component.
pub const NORMAL: u8 = 4;

/// A component: its kind and, for a named component, its name.
pub type Component = (u8, Seq<char>);

/// Index of the first `/` at or after `i`, or the length of `s`.
pub open spec fn next_slash(s: Seq<char>, i: int) -> int
    decreases s.len() - i,
{
    if i >= s.len() {
        s.len() as int
    } else if s[i] == '/' {
        i
    } else {
        next_slash(s, i + 1)
    }
}

/// `next_slash` lies between `i` and the length.
pub proof fn lemma_next_slash_bounds(s: Seq<char>, i: int)
    requires
        0 <= i <= s.len(),
    ensures
        i <= next_slash(s, i) <= s.len(),
        next_slash(s, i) < s.len() ==> s[next_slash(s, i)] == '/',
        forall|k: int| i <= k < next_slash(s, i) ==> s[k] != '/',
    decreases s.len() - i,
{
    if i < s.len() && s[i] != '/' {
        lemma_next_slash_bounds(s, i + 1);
    }
}

/// The component a segment between separators stands for: none for an
/// empty segment or for `.` other than at the very start.
pub open spec fn segment_component(seg: Seq<char>, first: bool) -> Seq<Component> {
    if seg.len() == 0 {
        Seq::empty()
    } else if seg == seq!['.'] {
        if first {
            seq![(CUR_DIR, Seq::empty())]
        } else {
            Seq::empty()
        }
    } else if seg == seq!['.', '.'] {
        seq![(PARENT_DIR, Seq::empty())]
    } else {
        seq![(NORMAL, seg)]
    }
}

/// The components of the segments of `s` from index `start` on.
pub open spec fn components_from(s: Seq<char>, start: int, first: bool) -> Seq<Component>
    decreases s.len() - start,
{
    if start < 0 || start > s.len() {
        Seq::empty()
    } else {
        let e = next_slash(s, start);
        proof {
            lemma_next_slash_bounds(s, start);
        }
        segment_component(s.subrange(start, e), first) + if e < s.len() {
            components_from(s, e + 1, false)
        } else {
            Seq::empty()
        }
    }
}

/// The components of path `s`.
#[verifier::opaque]
pub open spec fn components(s: Seq<char>) -> Seq<Component> {
    if s.len() > 0 && s[0] == '/' {
        seq![(ROOT_DIR, Seq::<char>::empty())] + components_from(s, 1, false)
    } else {
        components_from(s, 0, true)
    }
}

/// `a` comes before `b` in character order.
pub open spec fn text_less(a: Seq<char>, b: Seq<char>) -> bool
    decreases a.len(),
{
    if a.len() == 0 {
        b.len() > 0
    } else if b.len() == 0 {
        false
    } else if a[0] != b[0] {
        a[0] < b[0]
    } else {
        text_less(a.drop_first(), b.drop_first())
    }
}

/// Component `a` comes before component `b`: by kind, then by name.
pub open spec fn component_less(a: Component, b: Component) -> bool {
    a.0 < b.0 || (a.0 == b.0 && text_less(a.1, b.1))
}

/// Component list `a` comes before component list `b`, lexicographically.
pub open spec fn components_less(a: Seq<Component>, b: Seq<Component>) -> bool
    decreases a.len(),
{
    if a.len() == 0 {
        b.len() > 0
    } else if b.len() == 0 {
        false
    } else if a[0] != b[0] {
        component_less(a[0], b[0])
    } else {
        components_less(a.drop_first(), b.drop_first())
    }
}

/// The components of a path, computed.
pub struct PathKey {
    pub comps: Vec<(u8, Vec<char>)>,
}

/// The model of computed components.
pub open spec fn key_view(k: Seq<(u8, Vec<char>)>) -> Seq<Component> {
    k.map_values(|c: (u8, Vec<char>)| (c.0, c.1@))
}

/// The component a segment stands for, computed.
fn push_segment(out: &mut Vec<(u8, Vec<char>)>, seg: Vec<char>, first: bool)
    ensures
        key_view(final(out)@) == key_view(old(out)@) + segment_component(seg@, first),
{
    let ghost before = key_view(out@);
    if seg.len() == 0 {
        assert(key_view(out@) =~= before + segment_component(seg@, first));
        return;
    }
    if seg.len() == 1 && seg[0] == '.' {
        assert(seg@ =~= seq!['.']);
        if first {
            out.push((CUR_DIR, Vec::new()));
            assert(key_view(out@) =~= before + segment_component(seg@, first));
        } else {
            assert(key_view(out@) =~= before + segment_component(seg@, first));
        }
        return;
    }
    if seg.len() == 2 && seg[0] == '.' && seg[1] == '.' {
        assert(seg@ =~= seq!['.', '.']);
        out.push((PARENT_DIR, Vec::new()));
        assert(key_view(out@) =~= before + segment_component(seg@, first));
        return;
    }
    assert(seg@ != seq!['.']) by {
        if seg@ == seq!['.'] {
            assert(seg@.len() == 1);
        }
    }
    assert(seg@ != seq!['.', '.']) by {
        if seg@ == seq!['.', '.'] {
            assert(seg@.len() == 2 && seg@[0] == '.' && seg@[1] == '.');
        }
    }
    out.push((NORMAL, seg));
    assert(key_view(out@) =~= before + segment_component(seg@, first));
}

impl PathKey {
    /// The components of path `s`.
    pub fn of(s: &str) -> (res: PathKey)
        ensures
            key_view(res.comps@) == components(s@),
    {
        reveal(components);
        let cs = chars_of(s);
        let n = cs.len();
        let mut out: Vec<(u8, Vec<char>)> = Vec::new();
        let mut start: usize = 0;
        let mut first = true;
        if n > 0 && cs[0] == '/' {
            out.push((ROOT_DIR, Vec::new()));
            start = 1;
            first = false;
        }
        let ghost prefix = key_view(out@);
        assert(components(s@) == prefix + components_from(s@, start as int, first)) by {
            if n > 0 && cs@[0] == '/' {
                assert(prefix =~= seq![(ROOT_DIR, Seq::<char>::empty())]);
            } else {
                assert(prefix =~= Seq::<Component>::empty());
            }
        }
        let mut seg: Vec<char> = Vec::new();
        let mut j = start;
        loop
            invariant
                n == cs@.len(),
                cs@ == s@,
                start <= j <= n,
                seg@ == cs@.subrange(start as int, j as int),
                next_slash(cs@, start as int) == next_slash(cs@, j as int),
                key_view(out@) + components_from(cs@, start as int, first) == components(s@),
            decreases n - j + 1,
        {
            proof {
                lemma_next_slash_bounds(cs@, start as int);
            }
            if j == n || cs[j] == '/' {
                proof {
                    assert(next_slash(cs@, j as int) == j);
                }
                let ghost old_out = key_view(out@);
                let ghost (s0, f0) = (start as int, first);
                let at_end = j == n;
                push_segment(&mut out, seg, first);
                if at_end {
                    assert(components_from(cs@, s0, f0) == segment_component(cs@.subrange(s0, j as int), f0));
                    assert(key_view(out@) =~= components(s@));
                    return PathKey { comps: out };
                }
                start = j + 1;
                first = false;
                seg = Vec::new();
                j = j + 1;
                assert(key_view(out@) + components_from(cs@, start as int, first) =~= old_out
                    + components_from(cs@, s0, f0));
            } else {
                seg.push(cs[j]);
                j = j + 1;
                assert(seg@ =~= cs@.subrange(start as int, j as int));
            }
        }
    }
}

/// How two paths compare.
#[derive(Debug, Clone, Copy, PartialEq, Eq, Structural)]
pub enum PathOrder {
    Less,
    Equal,
    Greater,
}

/// How `a` and `b` compare in character order.
pub(crate) fn compare_text(a: &Vec<char>, b: &Vec<char>) -> (res: PathOrder)
    ensures
        res == PathOrder::Equal <==> a@ == b@,
        res == PathOrder::Less <==> text_less(a@, b@),
        res == PathOrder::Greater <==> text_less(b@, a@),
{
    let mut i: usize = 0;
    assert(a@.skip(0) =~= a@);
    assert(b@.skip(0) =~= b@);
    while i < a.len() && i < b.len() && a[i] == b[i]
        invariant
            i <= a@.len(),
            i <= b@.len(),
            a@.take(i as int) == b@.take(i as int),
            text_less(a@, b@) == text_less(a@.skip(i as int), b@.skip(i as int)),
            text_less(b@, a@) == text_less(b@.skip(i as int), a@.skip(i as int)),
        decreases a@.len() - i,
    {
        assert(a@.skip(i as int).drop_first() =~= a@.skip(i + 1));
        assert(b@.skip(i as int).drop_first() =~= b@.skip(i + 1));
        assert(a@.take(i + 1) =~= a@.take(i as int).push(a@[i as int]));
        assert(b@.take(i + 1) =~= b@.take(i as int).push(b@[i as int]));
        i += 1;
    }
    if i == a.len() && i == b.len() {
        assert(a@ =~= a@.take(i as int));
        assert(b@ =~= b@.take(i as int));
        PathOrder::Equal
    } else if i == a.len() {
        assert(a@ != b@);
        PathOrder::Less
    } else if i == b.len() {
        assert(a@ != b@) by {
            assert(a@.len() != b@.len());
        }
        PathOrder::Greater
    } else {
        assert(a@[i as int] != b@[i as int]);
        assert(a@ != b@);
        assert(a@.skip(i as int)[0] == a@[i as int]);
        assert(b@.skip(i as int)[0] == b@[i as int]);
        if a[i] < b[i] {
            PathOrder::Less
        } else {
            PathOrder::Greater
        }
    }
}

/// How component lists `a` and `b` compare.
pub fn compare_keys(a: &PathKey, b: &PathKey) -> (res: PathOrder)
    ensures
        res == PathOrder::Equal <==> key_view(a.comps@) == key_view(b.comps@),
        res == PathOrder::Less <==> components_less(key_view(a.comps@), key_view(b.comps@)),
        res == PathOrder::Greater <==> components_less(key_view(b.comps@), key_view(a.comps@)),
{
    let ghost ka = key_view(a.comps@);
    let ghost kb = key_view(b.comps@);
    let mut i: usize = 0;
    assert(ka.skip(0) =~= ka);
    assert(kb.skip(0) =~= kb);
    loop
        invariant
            ka == key_view(a.comps@),
            kb == key_view(b.comps@),
            i <= a.comps@.len(),
            i <= b.comps@.len(),
            ka.take(i as int) == kb.take(i as int),
            components_less(ka, kb) == components_less(ka.skip(i as int), kb.skip(i as int)),
            components_less(kb, ka) == components_less(kb.skip(i as int), ka.skip(i as int)),
        ensures
            i == a.comps@.len() || i == b.comps@.len(),
            i <= a.comps@.len(),
            i <= b.comps@.len(),
            ka.take(i as int) == kb.take(i as int),
            components_less(ka, kb) == components_less(ka.skip(i as int), kb.skip(i as int)),
            components_less(kb, ka) == components_less(kb.skip(i as int), ka.skip(i as int)),
        decreases a.comps@.len() - i,
    {
        if i == a.comps.len() || i == b.comps.len() {
            break;
        }
        let (x, y) = (&a.comps[i], &b.comps[i]);
        assert(ka[i as int] == (x.0, x.1@));
        assert(kb[i as int] == (y.0, y.1@));
        assert(ka.skip(i as int)[0] == ka[i as int]);
        assert(kb.skip(i as int)[0] == kb[i as int]);
        if x.0 != y.0 {
            assert(ka != kb) by {
                assert(ka[i as int] != kb[i as int]);
            }
            return if x.0 < y.0 {
                PathOrder::Less
            } else {
                PathOrder::Greater
            };
        }
        match compare_text(&x.1, &y.1) {
            PathOrder::Less => {
                assert(ka != kb) by {
                    assert(ka[i as int] != kb[i as int]);
                }
                return PathOrder::Less;
            },
            PathOrder::Greater => {
                assert(ka != kb) by {
                    assert(ka[i as int] != kb[i as int]);
                }
                return PathOrder::Greater;
            },
            PathOrder::Equal => {},
        }
        assert(ka.skip(i as int).drop_first() =~= ka.skip(i + 1));
        assert(kb.skip(i as int).drop_first() =~= kb.skip(i + 1));
        assert(ka.take(i + 1) =~= ka.take(i as int).push(ka[i as int]));
        assert(kb.take(i + 1) =~= kb.take(i as int).push(kb[i as int]));
        i += 1;
    }
    if i == a.comps.len() && i == b.comps.len() {
        assert(ka =~= ka.take(i as int));
        assert(kb =~= kb.take(i as int));
        PathOrder::Equal
    } else if i == a.comps.len() {
        assert(ka != kb) by {
            assert(ka.len() != kb.len());
        }
        PathOrder::Less
    } else {
        assert(ka != kb) by {
            assert(ka.len() != kb.len());
        }
        PathOrder::Greater
    }
}

/// The last component of path `s`, when it is a name.
pub open spec fn file_name(s: Seq<char>) -> Option<Seq<char>> {
    let c = components(s);
    if c.len() > 0 && c.last().0 == NORMAL {
        Some(c.last().1)
    } else {
        None
    }
}

/// Index of the last `.` among the first `i` characters of `s`, or -1.
pub open spec fn last_dot_before(s: Seq<char>, i: int) -> int
    decreases i,
{
    if i <= 0 {
        -1
    } else if s[i - 1] == '.' {
        i - 1
    } else {
        last_dot_before(s, i - 1)
    }
}

/// The extension of path `s`: what follows the last `.` of its file name,
/// when that `.` is not the name's first character.
pub open spec fn extension(s: Seq<char>) -> Option<Seq<char>> {
    match file_name(s) {
        Some(n) => {
            let d = last_dot_before(n, n.len() as int);
            if d > 0 {
                Some(n.subrange(d + 1, n.len() as int))
            } else {
                None
            }
        },
        None => None,
    }
}

/// The file name of path `s`, if its last component is a name.
pub fn path_file_name(s: &str) -> (res: Option<Vec<char>>)
    ensures
        match res {
            Some(v) => file_name(s@) == Some(v@),
            None => file_name(s@) is None,
        },
{
    let key = PathKey::of(s);
    let n = key.comps.len();
    if n > 0 && key.comps[n - 1].0 == NORMAL {
        let ghost kv = key_view(key.comps@);
        assert(kv.last() == (key.comps@[n - 1].0, key.comps@[n - 1].1@));
        let name = crate::text::slice_chars(key.comps[n - 1].1.as_slice(), 0, key.comps[n - 1].1.len());
        assert(name@ =~= key.comps@[n - 1].1@);
        Some(name)
    } else {
        None
    }
}

/// The extension of path `s`, if it has one.
pub fn path_extension(s: &str) -> (res: Option<Vec<char>>)
    ensures
        match res {
            Some(v) => extension(s@) == Some(v@),
            None => extension(s@) is None,
        },
{
    match path_file_name(s) {
        Some(name) => {
            let mut i = name.len();
            while i > 0 && name[i - 1] != '.'
                invariant
                    i <= name@.len(),
                    last_dot_before(name@, i as int) == last_dot_before(name@, name@.len() as int),
                decreases i,
            {
                i -= 1;
            }
            if i > 1 {
                Some(crate::text::slice_chars(name.as_slice(), i, name.len()))
            } else {
                None
            }
        },
        None => None,
    }
}

/// Whether path `s` is relative and never climbs above its start: it has no
/// root and no `..` component.
pub open spec fn safe_relative(s: Seq<char>) -> bool {
    !(s.len() > 0 && s[0] == '/') && forall|i: int| 0 <= i < components(s).len() ==> (#[trigger] components(s)[i]).0 != PARENT_DIR && components(s)[i].0 != ROOT_DIR
}

/// Whether `s` is a relative path that stays below where it starts.
pub fn is_safe_relative_path(s: &str) -> (res: bool)
    ensures
        res == safe_relative(s@),
{
    let cs = chars_of(s);
    if cs.len() > 0 && cs[0] == '/' {
        return false;
    }
    let key = PathKey::of(s);
    let ghost kv = key_view(key.comps@);
    let n = key.comps.len();
    for i in 0..n
        invariant
            n == key.comps@.len(),
            kv == key_view(key.comps@),
            kv == components(s@),
            cs@ == s@,
            !(cs@.len() > 0 && cs@[0] == '/'),
            forall|j: int| 0 <= j < i ==> (#[trigger] kv[j]).0 != PARENT_DIR && kv[j].0 != ROOT_DIR,
    {
        assert(kv[i as int].0 == key.comps@[i as int].0);
        if key.comps[i].0 == PARENT_DIR || key.comps[i].0 == ROOT_DIR {
            return false;
        }
    }
    true
}

} // verus!
