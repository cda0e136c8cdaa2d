//! Comparison of file trees: the entries of two (or three) sides are
//! aligned by path, in path order, and each aligned path gets a status.
//!
//! Sides are maps from path to entry as the entry lists build them: a path
//! keeps the spelling of its first entry and the value of its last one.
//! Where a status depends on file contents (hash verification of two files
//! of equal size), the caller hashes the files and hands the outcomes in,
//! in the order in which [`ComparisonEngine::content_checks`] and
//! [`ComparisonEngine::three_way_content_checks`] list the pairs.

use crate::error::RCompareError;
use crate::hash_cache::HashCache;
use crate::paths::{compare_keys, components, components_less, Component, PathKey, PathOrder};
use crate::text::{chars_of, string_from_chars};
use crate::types::{
    opt_entry_view, DiffNode, DiffStatus, FileEntry, FileEntryModel, ThreeWayDiffNode,
    ThreeWayDiffStatus,
};
use vstd::prelude::*;

verus! {

/// Message of a cancelled comparison.
pub const CANCELLED_MESSAGE: &'static str = "Comparison cancelled";

/// What hashing two files found.
#[derive(Debug)]
pub enum ContentVerdict {
    /// The contents are the same.
    Same,
    /// The contents differ.
    Different,
    /// One of the files does not exist (such as a broken symbolic link).
    Missing,
    /// Reading or hashing failed with this error.
    Failed(RCompareError),
}

/// The components of an entry's path.
pub open spec fn entry_key(e: FileEntryModel) -> Seq<Component> {
    components(e.path)
}

/// The entries of all sides, each tagged with its side, side by side in order.
pub type Tagged = Seq<(usize, FileEntryModel)>;

/// Some entry of the list has path components `k`.
pub open spec fn has_key(l: Tagged, k: Seq<Component>) -> bool {
    exists|i: int| 0 <= i < l.len() && #[trigger] entry_key(l[i].1) == k
}

/// The last entry of side `side` with path components `k`.
pub open spec fn last_on(l: Tagged, side: usize, k: Seq<Component>) -> Option<FileEntryModel>
    decreases l.len(),
{
    if l.len() == 0 {
        None
    } else if l.last().0 == side && entry_key(l.last().1) == k {
        Some(l.last().1)
    } else {
        last_on(l.drop_last(), side, k)
    }
}

/// The path spelling of the first entry with path components `k`.
pub open spec fn first_path(l: Tagged, k: Seq<Component>) -> Seq<char>
    decreases l.len(),
{
    if l.len() == 0 {
        Seq::empty()
    } else if entry_key(l[0].1) == k {
        l[0].1.path
    } else {
        first_path(l.drop_first(), k)
    }
}

/// An aligned path: its spelling and its entry on each side.
pub struct SlotModel {
    pub path: Seq<char>,
    pub entries: Seq<Option<FileEntryModel>>,
}

/// `slots` align the tagged entries of `sides` sides: one slot per distinct
/// path, in strictly increasing path order; each slot spelled as the first
/// entry with its path and holding the last entry with its path of each side.
pub open spec fn aligned(l: Tagged, sides: nat, slots: Seq<SlotModel>) -> bool {
    &&& forall|i: int| 0 <= i < slots.len() - 1 ==> components_less(
        #[trigger] components(slots[i].path),
        components(slots[i + 1].path),
    )
    &&& forall|i: int, j: int| 0 <= i < j < slots.len() ==> components(#[trigger] slots[i].path) != components(
        #[trigger] slots[j].path,
    )
    &&& forall|k: Seq<Component>| #[trigger] has_key(l, k) <==> exists|i: int| 0 <= i < slots.len() && components(slots[i].path) == k
    &&& forall|i: int| 0 <= i < slots.len() ==> {
        &&& (#[trigger] slots[i]).entries.len() == sides
        &&& slots[i].path == first_path(l, components(slots[i].path))
        &&& forall|s: usize| s < sides ==> slots[i].entries[s as int] == last_on(l, s, components(slots[i].path))
    }
}

/// A path aligned across sides, with its computed components.
pub struct Slot {
    pub path: String,
    pub key: PathKey,
    pub entries: Vec<Option<FileEntry>>,
}

/// The model of a slot.
pub open spec fn slot_view(s: Slot) -> SlotModel {
    SlotModel { path: s.path@, entries: s.entries@.map_values(|e: Option<FileEntry>| opt_entry_view(e)) }
}

/// The models of slots.
pub open spec fn slots_view(v: Seq<Slot>) -> Seq<SlotModel> {
    v.map_values(|s: Slot| slot_view(s))
}

/// The tagged model of entry lists, side by side.
pub open spec fn tagged_view(v: Seq<(usize, FileEntry)>) -> Tagged {
    v.map_values(|p: (usize, FileEntry)| (p.0, p.1@))
}

/// Facts on appending one entry to the tagged list.
proof fn lemma_push_entry(l: Tagged, x: (usize, FileEntryModel), k: Seq<Component>)
    ensures
        has_key(l.push(x), k) <==> (has_key(l, k) || entry_key(x.1) == k),
        has_key(l, k) ==> first_path(l.push(x), k) == first_path(l, k),
        !has_key(l, k) && entry_key(x.1) == k ==> first_path(l.push(x), k) == x.1.path,
        forall|s: usize| #[trigger] last_on(l.push(x), s, k) == if s == x.0 && entry_key(x.1) == k {
            Some(x.1)
        } else {
            last_on(l, s, k)
        },
        !has_key(l, k) ==> forall|s: usize| #[trigger] last_on(l, s, k) is None,
    decreases l.len(),
{
    let lp = l.push(x);
    assert(lp.drop_last() =~= l);
    if has_key(lp, k) {
        let i = choose|i: int| 0 <= i < lp.len() && #[trigger] entry_key(lp[i].1) == k;
        if i < l.len() {
            assert(entry_key(l[i].1) == k);
        }
    }
    if has_key(l, k) {
        let i = choose|i: int| 0 <= i < l.len() && #[trigger] entry_key(l[i].1) == k;
        assert(entry_key(lp[i].1) == k);
    }
    if entry_key(x.1) == k {
        assert(entry_key(lp[l.len() as int].1) == k);
    }
    if l.len() > 0 {
        let d = l.drop_first();
        assert(lp.drop_first() =~= d.push(x));
        lemma_push_entry(d, x, k);
        if entry_key(l[0].1) != k {
            assert(has_key(l, k) ==> has_key(d, k)) by {
                if has_key(l, k) {
                    let i = choose|i: int| 0 <= i < l.len() && #[trigger] entry_key(l[i].1) == k;
                    assert(i > 0);
                    assert(entry_key(d[i - 1].1) == k);
                }
            }
            assert(!has_key(l, k) ==> !has_key(d, k)) by {
                if has_key(d, k) {
                    let i = choose|i: int| 0 <= i < d.len() && #[trigger] entry_key(d[i].1) == k;
                    assert(entry_key(l[i + 1].1) == k);
                }
            }
        }
    }
    if !has_key(l, k) {
        assert forall|s: usize| #[trigger] last_on(l, s, k) is None by {
            lemma_last_on_none(l, s, k);
        }
    }
}

proof fn lemma_last_on_none(l: Tagged, s: usize, k: Seq<Component>)
    requires
        !has_key(l, k),
    ensures
        last_on(l, s, k) is None,
    decreases l.len(),
{
    if l.len() > 0 {
        assert(entry_key(l[l.len() - 1].1) != k);
        assert(!has_key(l.drop_last(), k)) by {
            if has_key(l.drop_last(), k) {
                let i = choose|i: int| 0 <= i < l.drop_last().len() && #[trigger] entry_key(l.drop_last()[i].1) == k;
                assert(entry_key(l[i].1) == k);
            }
        }
        lemma_last_on_none(l.drop_last(), s, k);
    }
}

/// A copy of a path string.
fn copy_string(s: &String) -> (res: String)
    ensures
        res@ == s@,
{
    string_from_chars(chars_of(s.as_str()).as_slice())
}

/// Recording an entry whose path already has a slot keeps the alignment.
proof fn lemma_update_aligned(
    l: Tagged,
    x: (usize, FileEntryModel),
    sides: nat,
    before: Seq<SlotModel>,
    after: Seq<SlotModel>,
    q: int,
)
    requires
        aligned(l, sides, before),
        x.0 < sides,
        0 <= q < before.len(),
        components(before[q].path) == entry_key(x.1),
        after.len() == before.len(),
        after[q] == (SlotModel { path: before[q].path, entries: before[q].entries.update(x.0 as int, Some(x.1)) }),
        forall|i: int| 0 <= i < after.len() && i != q ==> #[trigger] after[i] == before[i],
    ensures
        aligned(l.push(x), sides, after),
{
    let kx = entry_key(x.1);
    assert(has_key(l, kx)) by {
        assert(exists|i: int| 0 <= i < before.len() && components(before[i].path) == kx) by {
            assert(components(before[q].path) == kx);
        }
    }
    assert forall|i: int| 0 <= i < after.len() - 1 implies components_less(
        #[trigger] components(after[i].path),
        components(after[i + 1].path),
    ) by {
        assert(components(after[i].path) == components(before[i].path));
        assert(components(after[i + 1].path) == components(before[i + 1].path));
    }
    assert forall|i: int, j: int| 0 <= i < j < after.len() implies components(#[trigger] after[i].path) != components(
        #[trigger] after[j].path,
    ) by {
        assert(components(after[i].path) == components(before[i].path));
        assert(components(after[j].path) == components(before[j].path));
    }
    assert forall|k: Seq<Component>| #[trigger] has_key(l.push(x), k) <==> exists|i: int| 0 <= i < after.len() && components(after[i].path) == k by {
        lemma_push_entry(l, x, k);
        if has_key(l.push(x), k) {
            if has_key(l, k) {
                let i = choose|i: int| 0 <= i < before.len() && components(before[i].path) == k;
                assert(components(after[i].path) == k);
            } else {
                assert(components(after[q].path) == k);
            }
        }
        if exists|i: int| 0 <= i < after.len() && components(after[i].path) == k {
            let i = choose|i: int| 0 <= i < after.len() && components(after[i].path) == k;
            assert(components(before[i].path) == k);
        }
    }
    assert forall|i: int| 0 <= i < after.len() implies {
        &&& (#[trigger] after[i]).entries.len() == sides
        &&& after[i].path == first_path(l.push(x), components(after[i].path))
        &&& forall|s: usize| s < sides ==> after[i].entries[s as int] == last_on(l.push(x), s, components(after[i].path))
    } by {
        let ki = components(after[i].path);
        assert(ki == components(before[i].path));
        lemma_push_entry(l, x, ki);
        assert(has_key(l, ki)) by {
            assert(exists|j: int| 0 <= j < before.len() && components(before[j].path) == ki) by {
                assert(components(before[i].path) == ki);
            }
        }
        assert forall|s: usize| s < sides implies after[i].entries[s as int] == last_on(l.push(x), s, ki) by {
            assert(last_on(l.push(x), s, ki) == if s == x.0 && entry_key(x.1) == ki {
                Some(x.1)
            } else {
                last_on(l, s, ki)
            });
            if i != q {
                assert(ki != kx);
            }
        }
    }
}

/// Adding a slot at its place in path order keeps the slots ordered and distinct.
#[verifier::rlimit(40)]
proof fn lemma_insert_order(
    l: Tagged,
    x: (usize, FileEntryModel),
    sides: nat,
    before: Seq<SlotModel>,
    ns: SlotModel,
    p: int,
)
    requires
        aligned(l, sides, before),
        x.0 < sides,
        0 <= p <= before.len(),
        !has_key(l, entry_key(x.1)),
        ns.path == x.1.path,
        ns.entries.len() == sides,
        forall|s: int| 0 <= s < sides ==> ns.entries[s] == if s == x.0 {
            Some(x.1)
        } else {
            None
        },
        forall|i: int| 0 <= i < p ==> components_less(components(#[trigger] before[i].path), entry_key(x.1)),
        p < before.len() ==> components_less(entry_key(x.1), components(before[p].path)),
        forall|i: int| 0 <= i < before.len() ==> components(#[trigger] before[i].path) != entry_key(x.1),
    ensures
        forall|i: int| 0 <= i < before.len() + 1 - 1 ==> components_less(
            #[trigger] components(before.insert(p, ns)[i].path),
            components(before.insert(p, ns)[i + 1].path),
        ),
        forall|i: int, j: int| 0 <= i < j < before.len() + 1 ==> components(#[trigger] before.insert(p, ns)[i].path) != components(
            #[trigger] before.insert(p, ns)[j].path,
        ),
{
    let kx = entry_key(x.1);
    let after = before.insert(p, ns);
    assert(components(after[p].path) == kx);
    assert forall|i: int| 0 <= i < after.len() - 1 implies components_less(
        #[trigger] components(after[i].path),
        components(after[i + 1].path),
    ) by {
        if i + 1 < p {
            assert(after[i] == before[i] && after[i + 1] == before[i + 1]);
        } else if i + 1 == p {
            assert(after[i] == before[i]);
        } else if i == p {
            assert(after[i + 1] == before[p]);
        } else {
            assert(after[i] == before[i - 1] && after[i + 1] == before[i]);
        }
    }
    assert forall|i: int, j: int| 0 <= i < j < after.len() implies components(#[trigger] after[i].path) != components(
        #[trigger] after[j].path,
    ) by {
        if i == p {
            assert(after[j] == before[j - 1]);
        } else if j == p {
            assert(after[i] == before[i]);
        } else if i < p && j < p {
            assert(after[i] == before[i] && after[j] == before[j]);
        } else if i < p {
            assert(after[i] == before[i] && after[j] == before[j - 1]);
        } else {
            assert(after[i] == before[i - 1] && after[j] == before[j - 1]);
        }
    }
}

/// Adding a slot for a new path keeps every path covered.
proof fn lemma_insert_cover(
    l: Tagged,
    x: (usize, FileEntryModel),
    sides: nat,
    before: Seq<SlotModel>,
    ns: SlotModel,
    p: int,
)
    requires
        aligned(l, sides, before),
        x.0 < sides,
        0 <= p <= before.len(),
        !has_key(l, entry_key(x.1)),
        ns.path == x.1.path,
        ns.entries.len() == sides,
        forall|s: int| 0 <= s < sides ==> ns.entries[s] == if s == x.0 {
            Some(x.1)
        } else {
            None
        },
        forall|i: int| 0 <= i < p ==> components_less(components(#[trigger] before[i].path), entry_key(x.1)),
        p < before.len() ==> components_less(entry_key(x.1), components(before[p].path)),
        forall|i: int| 0 <= i < before.len() ==> components(#[trigger] before[i].path) != entry_key(x.1),
    ensures
        forall|k: Seq<Component>| #[trigger] has_key(l.push(x), k) <==> exists|i: int| 0 <= i < before.insert(p, ns).len() && components(before.insert(p, ns)[i].path) == k,
{
    let kx = entry_key(x.1);
    let after = before.insert(p, ns);
    assert(components(after[p].path) == kx);
    assert forall|k: Seq<Component>| #[trigger] has_key(l.push(x), k) <==> exists|i: int| 0 <= i < after.len() && components(after[i].path) == k by {
        lemma_push_entry(l, x, k);
        if has_key(l.push(x), k) {
            if has_key(l, k) {
                let i = choose|i: int| 0 <= i < before.len() && components(before[i].path) == k;
                if i < p {
                    assert(after[i] == before[i]);
                } else {
                    assert(after[i + 1] == before[i]);
                }
            }
        }
        if exists|i: int| 0 <= i < after.len() && components(after[i].path) == k {
            let i = choose|i: int| 0 <= i < after.len() && components(after[i].path) == k;
            if i < p {
                assert(after[i] == before[i]);
                assert(components(before[i].path) == k);
            } else if i > p {
                assert(after[i] == before[i - 1]);
                assert(components(before[i - 1].path) == k);
            }
        }
    }
}

/// Adding a slot for a new path keeps every slot's spelling and entries.
proof fn lemma_insert_slots(
    l: Tagged,
    x: (usize, FileEntryModel),
    sides: nat,
    before: Seq<SlotModel>,
    ns: SlotModel,
    p: int,
)
    requires
        aligned(l, sides, before),
        x.0 < sides,
        0 <= p <= before.len(),
        !has_key(l, entry_key(x.1)),
        ns.path == x.1.path,
        ns.entries.len() == sides,
        forall|s: int| 0 <= s < sides ==> ns.entries[s] == if s == x.0 {
            Some(x.1)
        } else {
            None
        },
        forall|i: int| 0 <= i < p ==> components_less(components(#[trigger] before[i].path), entry_key(x.1)),
        p < before.len() ==> components_less(entry_key(x.1), components(before[p].path)),
        forall|i: int| 0 <= i < before.len() ==> components(#[trigger] before[i].path) != entry_key(x.1),
    ensures
        forall|i: int| 0 <= i < before.insert(p, ns).len() ==> {
            &&& (#[trigger] before.insert(p, ns)[i]).entries.len() == sides
            &&& before.insert(p, ns)[i].path == first_path(l.push(x), components(before.insert(p, ns)[i].path))
            &&& forall|s: usize| s < sides ==> before.insert(p, ns)[i].entries[s as int] == last_on(l.push(x), s, components(before.insert(p, ns)[i].path))
        },
{
    let kx = entry_key(x.1);
    let after = before.insert(p, ns);
    assert(components(after[p].path) == kx);
    assert forall|i: int| 0 <= i < after.len() implies {
        &&& (#[trigger] after[i]).entries.len() == sides
        &&& after[i].path == first_path(l.push(x), components(after[i].path))
        &&& forall|s: usize| s < sides ==> after[i].entries[s as int] == last_on(l.push(x), s, components(after[i].path))
    } by {
        let ki = components(after[i].path);
        lemma_push_entry(l, x, ki);
        if i == p {
            assert forall|s: usize| s < sides implies after[i].entries[s as int] == last_on(l.push(x), s, ki) by {
                assert(last_on(l.push(x), s, ki) == if s == x.0 && entry_key(x.1) == ki {
                    Some(x.1)
                } else {
                    last_on(l, s, ki)
                });
                assert(last_on(l, s, ki) is None);
            }
        } else {
            let b = if i < p {
                i
            } else {
                i - 1
            };
            assert(after[i] == before[b]);
            assert(ki != kx);
            assert(has_key(l, ki)) by {
                assert(exists|j: int| 0 <= j < before.len() && components(before[j].path) == ki) by {
                    assert(components(before[b].path) == ki);
                }
            }
            assert forall|s: usize| s < sides implies after[i].entries[s as int] == last_on(l.push(x), s, ki) by {
                assert(last_on(l.push(x), s, ki) == if s == x.0 && entry_key(x.1) == ki {
                    Some(x.1)
                } else {
                    last_on(l, s, ki)
                });
            }
        }
    }
}

/// Adding a slot for an entry with a new path, at its place in path order,
/// keeps the alignment.
proof fn lemma_insert_aligned(
    l: Tagged,
    x: (usize, FileEntryModel),
    sides: nat,
    before: Seq<SlotModel>,
    ns: SlotModel,
    p: int,
)
    requires
        aligned(l, sides, before),
        x.0 < sides,
        0 <= p <= before.len(),
        !has_key(l, entry_key(x.1)),
        ns.path == x.1.path,
        ns.entries.len() == sides,
        forall|s: int| 0 <= s < sides ==> ns.entries[s] == if s == x.0 {
            Some(x.1)
        } else {
            None
        },
        forall|i: int| 0 <= i < p ==> components_less(components(#[trigger] before[i].path), entry_key(x.1)),
        p < before.len() ==> components_less(entry_key(x.1), components(before[p].path)),
        forall|i: int| 0 <= i < before.len() ==> components(#[trigger] before[i].path) != entry_key(x.1),
    ensures
        aligned(l.push(x), sides, before.insert(p, ns)),
{
    lemma_insert_order(l, x, sides, before, ns, p);
    lemma_insert_cover(l, x, sides, before, ns, p);
    lemma_insert_slots(l, x, sides, before, ns, p);
}

/// A slot holding only `e` on side `side` of `sides`.
fn new_slot(e: &FileEntry, side: usize, sides: usize) -> (res: Slot)
    requires
        side < sides,
    ensures
        res.path@ == e@.path,
        crate::paths::key_view(res.key.comps@) == components(e@.path),
        res.entries@.len() == sides,
        forall|s: int| 0 <= s < sides ==> opt_entry_view(#[trigger] res.entries@[s]) == if s == side {
            Some(e@)
        } else {
            None
        },
{
    let mut entries: Vec<Option<FileEntry>> = Vec::new();
    for s in 0..sides
        invariant
            entries@.len() == s,
            side < sides,
            forall|t: int| 0 <= t < s ==> opt_entry_view(#[trigger] entries@[t]) == if t == side {
                Some(e@)
            } else {
                None
            },
    {
        if s == side {
            entries.push(Some(e.duplicate()));
        } else {
            entries.push(None);
        }
    }
    Slot { path: copy_string(&e.path), key: PathKey::of(e.path.as_str()), entries }
}

/// The index of the slot whose path has components `key`, if there is one.
fn find_slot(slots: &Vec<Slot>, key: &PathKey) -> (res: Option<usize>)
    requires
        forall|i: int| 0 <= i < slots@.len() ==> crate::paths::key_view((#[trigger] slots@[i]).key.comps@) == components(slots@[i].path@),
    ensures
        match res {
            Some(q) => q < slots@.len() && components(slots@[q as int].path@) == crate::paths::key_view(key.comps@),
            None => forall|i: int| 0 <= i < slots@.len() ==> components(#[trigger] slots@[i].path@) != crate::paths::key_view(key.comps@),
        },
{
    let mut q: usize = 0;
    while q < slots.len()
        invariant
            q <= slots@.len(),
            forall|i: int| 0 <= i < slots@.len() ==> crate::paths::key_view((#[trigger] slots@[i]).key.comps@) == components(slots@[i].path@),
            forall|i: int| 0 <= i < q ==> components(#[trigger] slots@[i].path@) != crate::paths::key_view(key.comps@),
        decreases slots@.len() - q,
    {
        if compare_keys(&slots[q].key, key) == PathOrder::Equal {
            return Some(q);
        }
        q += 1;
    }
    None
}

/// The index of the first slot whose path does not come before `key`.
fn insertion_point(slots: &Vec<Slot>, key: &PathKey) -> (res: usize)
    requires
        forall|i: int| 0 <= i < slots@.len() ==> crate::paths::key_view((#[trigger] slots@[i]).key.comps@) == components(slots@[i].path@),
        forall|i: int| 0 <= i < slots@.len() ==> components(#[trigger] slots@[i].path@) != crate::paths::key_view(key.comps@),
    ensures
        res <= slots@.len(),
        forall|i: int| 0 <= i < res ==> components_less(components(#[trigger] slots@[i].path@), crate::paths::key_view(key.comps@)),
        res < slots@.len() ==> components_less(crate::paths::key_view(key.comps@), components(slots@[res as int].path@)),
{
    let mut p: usize = 0;
    while p < slots.len()
        invariant
            p <= slots@.len(),
            forall|i: int| 0 <= i < slots@.len() ==> crate::paths::key_view((#[trigger] slots@[i]).key.comps@) == components(slots@[i].path@),
            forall|i: int| 0 <= i < slots@.len() ==> components(#[trigger] slots@[i].path@) != crate::paths::key_view(key.comps@),
            forall|i: int| 0 <= i < p ==> components_less(components(#[trigger] slots@[i].path@), crate::paths::key_view(key.comps@)),
        decreases slots@.len() - p,
    {
        let o = compare_keys(&slots[p].key, key);
        if o != PathOrder::Less {
            assert(components(slots@[p as int].path@) != crate::paths::key_view(key.comps@));
            return p;
        }
        p += 1;
    }
    p
}

/// Aligns tagged entries of `sides` sides by path.
pub fn align(entries: &Vec<(usize, FileEntry)>, sides: usize) -> (res: Vec<Slot>)
    requires
        forall|i: int| 0 <= i < entries@.len() ==> (#[trigger] entries@[i]).0 < sides,
    ensures
        aligned(tagged_view(entries@), sides as nat, slots_view(res@)),
        forall|i: int| 0 <= i < res@.len() ==> crate::paths::key_view((#[trigger] res@[i]).key.comps@) == components(res@[i].path@),
{
    let ghost all = tagged_view(entries@);
    let n = entries.len();
    let mut slots: Vec<Slot> = Vec::new();
    proof {
        assert(all.take(0) =~= Seq::<(usize, FileEntryModel)>::empty());
        assert forall|k: Seq<Component>| #[trigger] has_key(all.take(0), k) <==> exists|i: int| 0 <= i < slots_view(slots@).len() && components(slots_view(slots@)[i].path) == k by {}
    }
    for m in 0..n
        invariant
            n == entries@.len(),
            all == tagged_view(entries@),
            forall|i: int| 0 <= i < entries@.len() ==> (#[trigger] entries@[i]).0 < sides,
            aligned(all.take(m as int), sides as nat, slots_view(slots@)),
            forall|i: int| 0 <= i < slots@.len() ==> crate::paths::key_view((#[trigger] slots@[i]).key.comps@) == components(slots@[i].path@),
    {
        let side = entries[m].0;
        let e = &entries[m].1;
        let ghost l = all.take(m as int);
        let ghost x = all[m as int];
        let ghost before = slots_view(slots@);
        assert(x == (side, e@));
        assert(all.take(m + 1) =~= l.push(x));
        let key = PathKey::of(e.path.as_str());
        let ghost kx = components(e@.path);
        assert(entry_key(x.1) == kx);
        let ghost old_slots = slots@;
        match find_slot(&slots, &key) {
            Some(q) => {
                proof {
                    assert(components(before[q as int].path) == kx);
                    assert(has_key(l, kx));
                }
                slots[q].entries.set(side, Some(e.duplicate()));
                proof {
                    let after = slots_view(slots@);
                    assert(slots@ == old_slots.update(q as int, slots@[q as int]));
                    assert(slots@[q as int].path == old_slots[q as int].path);
                    assert(slots@[q as int].key == old_slots[q as int].key);
                    assert(after[q as int].entries =~= before[q as int].entries.update(side as int, Some(e@)));
                    assert forall|i: int| 0 <= i < after.len() && i != q implies #[trigger] after[i] == before[i] by {}
                    lemma_update_aligned(l, x, sides as nat, before, after, q as int);
                }
            },
            None => {
                let p = insertion_point(&slots, &key);
                let slot = new_slot(e, side, sides);
                let ghost ns = slot_view(slot);
                proof {
                    assert(!has_key(l, kx)) by {
                        if has_key(l, kx) {
                            let i = choose|i: int| 0 <= i < before.len() && components(before[i].path) == kx;
                            assert(components(old_slots[i].path@) == kx);
                        }
                    }
                    assert(ns.entries.len() == sides);
                    assert forall|s: int| 0 <= s < sides implies ns.entries[s] == if s == side {
                        Some(e@)
                    } else {
                        None
                    } by {
                        assert(opt_entry_view(slot.entries@[s]) == if s == side {
                            Some(e@)
                        } else {
                            None
                        });
                    }
                }
                slots.insert(p, slot);
                proof {
                    let after = slots_view(slots@);
                    assert(after =~= before.insert(p as int, ns));
                    assert forall|i: int| 0 <= i < p implies components_less(components(#[trigger] before[i].path), kx) by {
                        assert(components_less(components(old_slots[i].path@), kx));
                    }
                    if p < before.len() {
                        assert(components_less(kx, components(before[p as int].path)));
                    }
                    assert forall|i: int| 0 <= i < before.len() implies components(#[trigger] before[i].path) != kx by {
                        assert(components(old_slots[i].path@) != kx);
                    }
                    lemma_insert_aligned(l, x, sides as nat, before, ns, p as int);
                }
            },
        }
        proof {
            assert forall|i: int| 0 <= i < slots@.len() implies crate::paths::key_view((#[trigger] slots@[i]).key.comps@) == components(slots@[i].path@) by {}
        }
    }
    assert(all.take(n as int) =~= all);
    slots
}

/// The status of two present entries decided without reading contents, or
/// `None` when hash verification must compare their contents: a directory
/// against anything differs (two directories are the same), different
/// sizes differ, and without verification equal sizes are the same when the
/// modification times agree and unchecked otherwise.
pub open spec fn known_pair(verify: bool, l: FileEntryModel, r: FileEntryModel) -> Option<DiffStatus> {
    if l.is_dir && r.is_dir {
        Some(DiffStatus::Same)
    } else if l.is_dir || r.is_dir {
        Some(DiffStatus::Different)
    } else if l.size != r.size {
        Some(DiffStatus::Different)
    } else if !verify {
        if l.modified == r.modified {
            Some(DiffStatus::Same)
        } else {
            Some(DiffStatus::Unchecked)
        }
    } else {
        None
    }
}

/// The status of an aligned path decided without reading contents; `None`
/// when its contents must be compared.
pub open spec fn known_two_way(verify: bool, l: Option<FileEntryModel>, r: Option<FileEntryModel>) -> Option<DiffStatus> {
    match (l, r) {
        (Some(a), Some(b)) => known_pair(verify, a, b),
        (Some(_), None) => Some(DiffStatus::OrphanLeft),
        _ => Some(DiffStatus::OrphanRight),
    }
}

/// The status a content verdict gives; a missing file counts as different.
pub open spec fn verdict_status(v: ContentVerdict) -> DiffStatus {
    match v {
        ContentVerdict::Same => DiffStatus::Same,
        _ => DiffStatus::Different,
    }
}

/// Verdict `c`, if there is one.
pub open spec fn verdict_at(verdicts: Seq<ContentVerdict>, c: int) -> Option<ContentVerdict> {
    if 0 <= c < verdicts.len() {
        Some(verdicts[c])
    } else {
        None
    }
}

/// The statuses of slots `i..` of a two-sided alignment, where verdict `c`
/// is the next to use: each path whose contents must be compared takes the
/// next verdict (unchecked when there is none left); a failed verdict is the
/// error of the whole comparison.
pub open spec fn two_way_statuses(
    slots: Seq<SlotModel>,
    verify: bool,
    verdicts: Seq<ContentVerdict>,
    i: int,
    c: int,
) -> Result<Seq<DiffStatus>, RCompareError>
    decreases slots.len() - i,
{
    if i < 0 || i >= slots.len() {
        Ok(Seq::empty())
    } else {
        match known_two_way(verify, slots[i].entries[0], slots[i].entries[1]) {
            Some(st) => match two_way_statuses(slots, verify, verdicts, i + 1, c) {
                Ok(rest) => Ok(seq![st] + rest),
                Err(e) => Err(e),
            },
            None => match verdict_at(verdicts, c) {
                Some(ContentVerdict::Failed(e)) => Err(e),
                v => {
                    let st = match v {
                        Some(w) => verdict_status(w),
                        None => DiffStatus::Unchecked,
                    };
                    match two_way_statuses(slots, verify, verdicts, i + 1, c + 1) {
                        Ok(rest) => Ok(seq![st] + rest),
                        Err(e) => Err(e),
                    }
                },
            },
        }
    }
}

/// The aligned path of a diff node.
pub open spec fn node_slot(n: DiffNode) -> SlotModel {
    SlotModel { path: n.relative_path@, entries: seq![opt_entry_view(n.left), opt_entry_view(n.right)] }
}

/// The aligned path of a three-way diff node.
pub open spec fn three_way_slot(n: ThreeWayDiffNode) -> SlotModel {
    SlotModel {
        path: n.relative_path@,
        entries: seq![opt_entry_view(n.base), opt_entry_view(n.left), opt_entry_view(n.right)],
    }
}

/// Whether two present files are the same without reading contents, or
/// `None` when hash verification must compare their contents.
pub open spec fn known_same(verify: bool, a: FileEntryModel, b: FileEntryModel) -> Option<bool> {
    if a.size != b.size {
        Some(false)
    } else if !verify {
        Some(a.modified == b.modified)
    } else {
        None
    }
}

/// The three-way status from whether base equals left, base equals right
/// and left equals right.
pub open spec fn three_way_from(bl: bool, br: bool) -> ThreeWayDiffStatus {
    if bl && br {
        ThreeWayDiffStatus::AllSame
    } else if bl && !br {
        ThreeWayDiffStatus::RightChanged
    } else if !bl && br {
        ThreeWayDiffStatus::LeftChanged
    } else {
        ThreeWayDiffStatus::BothChanged
    }
}

/// The three-way status of a path from what is present, when no contents
/// are needed; `None` when all three are files (their pairs decide).
pub open spec fn known_presence(
    b: Option<FileEntryModel>,
    l: Option<FileEntryModel>,
    r: Option<FileEntryModel>,
) -> Option<ThreeWayDiffStatus> {
    match (b, l, r) {
        (Some(x), Some(y), Some(z)) => if x.is_dir && y.is_dir && z.is_dir {
            Some(ThreeWayDiffStatus::AllSame)
        } else if x.is_dir || y.is_dir || z.is_dir {
            Some(ThreeWayDiffStatus::BothChanged)
        } else {
            None
        },
        (Some(_), None, None) => Some(ThreeWayDiffStatus::BaseOnly),
        (None, Some(_), None) => Some(ThreeWayDiffStatus::LeftOnly),
        (None, None, Some(_)) => Some(ThreeWayDiffStatus::RightOnly),
        (Some(_), Some(_), None) => Some(ThreeWayDiffStatus::BaseAndLeft),
        (Some(_), None, Some(_)) => Some(ThreeWayDiffStatus::BaseAndRight),
        (None, Some(_), Some(_)) => Some(ThreeWayDiffStatus::BothAdded),
        (None, None, None) => Some(ThreeWayDiffStatus::AllSame),
    }
}

/// One pair comparison during a three-way status: whether they are the
/// same, the next verdict index, or the error of a failed verdict.
pub open spec fn pair_same(
    verify: bool,
    a: FileEntryModel,
    b: FileEntryModel,
    verdicts: Seq<ContentVerdict>,
    c: int,
) -> Result<(bool, int), RCompareError> {
    match known_same(verify, a, b) {
        Some(v) => Ok((v, c)),
        None => match verdict_at(verdicts, c) {
            Some(ContentVerdict::Failed(e)) => Err(e),
            Some(ContentVerdict::Same) => Ok((true, c + 1)),
            _ => Ok((false, c + 1)),
        },
    }
}

/// The statuses of slots `i..` of a three-sided alignment; for three
/// files the pairs base/left, base/right and left/right are compared in
/// that order, each taking the next verdict when its contents are needed.
pub open spec fn three_way_statuses(
    slots: Seq<SlotModel>,
    verify: bool,
    verdicts: Seq<ContentVerdict>,
    i: int,
    c: int,
) -> Result<Seq<ThreeWayDiffStatus>, RCompareError>
    decreases slots.len() - i,
{
    if i < 0 || i >= slots.len() {
        Ok(Seq::empty())
    } else {
        let step = three_way_step_of(slots[i], verify, verdicts, c);
        match step {
            Err(e) => Err(e),
            Ok((st, c2)) => match three_way_statuses(slots, verify, verdicts, i + 1, c2) {
                Ok(rest) => Ok(seq![st] + rest),
                Err(e) => Err(e),
            },
        }
    }
}

/// The entries of one side, tagged with that side.
pub open spec fn side_tagged(v: Seq<FileEntry>, side: usize) -> Tagged {
    v.map_values(|e: FileEntry| (side, e@))
}

/// Appends copies of the entries of side `side`, tagged with it.
fn push_side(out: &mut Vec<(usize, FileEntry)>, side: usize, entries: &Vec<FileEntry>)
    ensures
        tagged_view(final(out)@) == tagged_view(old(out)@) + side_tagged(entries@, side),
        final(out)@.len() == old(out)@.len() + entries@.len(),
        forall|i: int| 0 <= i < old(out)@.len() ==> (#[trigger] final(out)@[i]).0 == old(out)@[i].0,
        forall|i: int| old(out)@.len() <= i < final(out)@.len() ==> (#[trigger] final(out)@[i]).0 == side,
{
    let ghost before = out@;
    let n = entries.len();
    for k in 0..n
        invariant
            n == entries@.len(),
            out@.len() == before.len() + k,
            tagged_view(out@) == tagged_view(before) + side_tagged(entries@.take(k as int), side),
            forall|i: int| 0 <= i < before.len() ==> (#[trigger] out@[i]).0 == before[i].0,
            forall|i: int| before.len() <= i < out@.len() ==> (#[trigger] out@[i]).0 == side,
    {
        let ghost prev = out@;
        let e = entries[k].duplicate();
        out.push((side, e));
        assert(tagged_view(out@) =~= tagged_view(prev).push((side, e@)));
        assert(side_tagged(entries@.take(k + 1), side) =~= side_tagged(entries@.take(k as int), side).push((side, entries@[k as int]@)));
        assert(tagged_view(out@) =~= tagged_view(before) + side_tagged(entries@.take(k + 1), side));
    }
    assert(entries@.take(n as int) =~= entries@);
}

/// Comparison engine for file trees.
pub struct ComparisonEngine {
    pub cache: HashCache,
    pub verify_hashes: bool,
}

impl ComparisonEngine {
    pub fn new(cache: HashCache) -> (res: Self)
        ensures
            !res.verify_hashes,
    {
        ComparisonEngine { cache, verify_hashes: false }
    }

    /// The engine with hash verification switched on or off.
    pub fn with_hash_verification(self, enabled: bool) -> (res: Self)
        ensures
            res.verify_hashes == enabled,
    {
        ComparisonEngine { cache: self.cache, verify_hashes: enabled }
    }

    /// What persisting the engine's hash cache writes, given whether the
    /// cache's journal has grown too large; the caller does the writing.
    pub fn persist_cache(&self, journal_too_large: bool) -> (res: crate::hash_cache::PersistPlan)
        ensures
            res == if self.cache.cache_mode() != crate::hash_cache::CacheMode::ReadWrite || !self.cache.is_dirty() {
                crate::hash_cache::PersistPlan::Skip
            } else if self.cache.needs_snapshot() || journal_too_large {
                crate::hash_cache::PersistPlan::Snapshot
            } else {
                crate::hash_cache::PersistPlan::AppendPending
            },
    {
        self.cache.persist_plan(journal_too_large)
    }

    /// Whether two files have the same content, given their BLAKE3 hashes
    /// (which the caller computes by reading them).
    pub fn verify_files(&self, left_hash: &crate::types::Blake3Hash, right_hash: &crate::types::Blake3Hash) -> (res: bool)
        ensures
            res == (left_hash.0@ == right_hash.0@),
    {
        crate::resumable_copy::hashes_equal(left_hash, right_hash)
    }

    /// What the partial hashes of two files of the same size decide: the
    /// files differ when their partial hashes differ; when these agree, the
    /// full hashes decide (`None`).
    pub fn partial_verdict(&self, left_partial: &crate::types::Blake3Hash, right_partial: &crate::types::Blake3Hash) -> (res: Option<ContentVerdict>)
        ensures
            left_partial.0@ != right_partial.0@ ==> res matches Some(ContentVerdict::Different),
            left_partial.0@ == right_partial.0@ ==> res is None,
    {
        if self.verify_files(left_partial, right_partial) {
            None
        } else {
            Some(ContentVerdict::Different)
        }
    }
}

/// `pre` in front of the statuses of a successful outcome.
pub open spec fn prefixed<T>(pre: Seq<T>, r: Result<Seq<T>, RCompareError>) -> Result<Seq<T>, RCompareError> {
    match r {
        Ok(rest) => Ok(pre + rest),
        Err(e) => Err(e),
    }
}

/// Prefixing in two steps is prefixing once.
proof fn lemma_prefixed_step<T>(before: Seq<T>, st: T, r: Result<Seq<T>, RCompareError>)
    ensures
        prefixed(before, prefixed(seq![st], r)) == prefixed(before.push(st), r),
{
    match r {
        Ok(rest) => {
            assert(before + (seq![st] + rest) =~= before.push(st) + rest);
        },
        Err(_) => {},
    }
}

/// The pairs of files whose contents must be compared, slot by slot.
pub open spec fn pending_pairs(slots: Seq<SlotModel>, verify: bool) -> Seq<(FileEntryModel, FileEntryModel)>
    decreases slots.len(),
{
    if slots.len() == 0 {
        Seq::empty()
    } else {
        let last = slots.last();
        pending_pairs(slots.drop_last(), verify) + if known_two_way(verify, last.entries[0], last.entries[1]) is None {
            seq![(last.entries[0].unwrap(), last.entries[1].unwrap())]
        } else {
            Seq::empty()
        }
    }
}

/// The pairs of files whose contents must be compared for a three-way
/// comparison, slot by slot and pair by pair.
pub open spec fn three_way_pending(slots: Seq<SlotModel>, verify: bool) -> Seq<(FileEntryModel, FileEntryModel)>
    decreases slots.len(),
{
    if slots.len() == 0 {
        Seq::empty()
    } else {
        let last = slots.last();
        let (b, l, r) = (last.entries[0], last.entries[1], last.entries[2]);
        three_way_pending(slots.drop_last(), verify) + if known_presence(b, l, r) is None {
            (if known_same(verify, b.unwrap(), l.unwrap()) is None {
                seq![(b.unwrap(), l.unwrap())]
            } else {
                Seq::empty()
            }) + (if known_same(verify, b.unwrap(), r.unwrap()) is None {
                seq![(b.unwrap(), r.unwrap())]
            } else {
                Seq::empty()
            }) + (if known_same(verify, l.unwrap(), r.unwrap()) is None {
                seq![(l.unwrap(), r.unwrap())]
            } else {
                Seq::empty()
            })
        } else {
            Seq::empty()
        }
    }
}

/// The models of pairs of entries.
pub open spec fn pairs_view(v: Seq<(FileEntry, FileEntry)>) -> Seq<(FileEntryModel, FileEntryModel)> {
    v.map_values(|p: (FileEntry, FileEntry)| (p.0@, p.1@))
}

/// The status of two optional entries decided without reading contents.
fn known_status(verify: bool, l: &Option<FileEntry>, r: &Option<FileEntry>) -> (res: Option<DiffStatus>)
    requires
        l is Some || r is Some,
    ensures
        res == known_two_way(verify, opt_entry_view(*l), opt_entry_view(*r)),
{
    match (l, r) {
        (Some(a), Some(b)) => {
            if a.is_dir && b.is_dir {
                Some(DiffStatus::Same)
            } else if a.is_dir || b.is_dir {
                Some(DiffStatus::Different)
            } else if a.size != b.size {
                Some(DiffStatus::Different)
            } else if !verify {
                if a.modified == b.modified {
                    Some(DiffStatus::Same)
                } else {
                    Some(DiffStatus::Unchecked)
                }
            } else {
                None
            }
        },
        (Some(_), None) => Some(DiffStatus::OrphanLeft),
        _ => Some(DiffStatus::OrphanRight),
    }
}

/// Whether two files are the same without reading contents.
fn known_same_files(verify: bool, a: &FileEntry, b: &FileEntry) -> (res: Option<bool>)
    ensures
        res == known_same(verify, a@, b@),
{
    if a.size != b.size {
        Some(false)
    } else if !verify {
        Some(a.modified == b.modified)
    } else {
        None
    }
}

/// The verdicts in reverse, so that popping takes them in order.
fn reversed(v: Vec<ContentVerdict>) -> (res: Vec<ContentVerdict>)
    ensures
        res@ == v@.reverse(),
{
    let mut src = v;
    let ghost orig = src@;
    let mut out: Vec<ContentVerdict> = Vec::new();
    while src.len() > 0
        invariant
            src@.len() <= orig.len(),
            src@ == orig.take(src@.len() as int),
            out@ == orig.skip(src@.len() as int).reverse(),
        decreases src@.len(),
    {
        let ghost k = src@.len() as int;
        let ghost before = out@;
        let x = src.pop().unwrap();
        assert(x == orig[k - 1]);
        out.push(x);
        assert(src@ =~= orig.take(k - 1));
        assert(orig.skip(k - 1).reverse() =~= orig.skip(k).reverse().push(orig[k - 1]));
        assert(out@ =~= orig.skip(src@.len() as int).reverse());
    }
    assert(orig.skip(0) =~= orig);
    out
}

/// A diff node for a slot of a two-sided alignment.
fn two_way_node(slot: &Slot, status: DiffStatus) -> (res: DiffNode)
    requires
        slot.entries@.len() == 2,
    ensures
        node_slot(res) == slot_view(*slot),
        res.status == status,
{
    let res = DiffNode {
        relative_path: copy_string(&slot.path),
        left: crate::types::duplicate_opt(&slot.entries[0]),
        right: crate::types::duplicate_opt(&slot.entries[1]),
        status,
    };
    assert(node_slot(res).entries =~= slot_view(*slot).entries);
    res
}

/// A three-way diff node for a slot of a three-sided alignment.
fn three_way_node(slot: &Slot, status: ThreeWayDiffStatus) -> (res: ThreeWayDiffNode)
    requires
        slot.entries@.len() == 3,
    ensures
        three_way_slot(res) == slot_view(*slot),
        res.status == status,
{
    let res = ThreeWayDiffNode {
        relative_path: copy_string(&slot.path),
        base: crate::types::duplicate_opt(&slot.entries[0]),
        left: crate::types::duplicate_opt(&slot.entries[1]),
        right: crate::types::duplicate_opt(&slot.entries[2]),
        status,
    };
    assert(three_way_slot(res).entries =~= slot_view(*slot).entries);
    res
}

/// Every slot of an alignment holds some entry.
proof fn lemma_slots_nonempty(l: Tagged, sides: nat, slots: Seq<SlotModel>, i: int)
    requires
        aligned(l, sides, slots),
        forall|j: int| 0 <= j < l.len() ==> (#[trigger] l[j]).0 < sides,
        0 <= i < slots.len(),
    ensures
        has_key(l, components(slots[i].path)),
        exists|s: usize| s < sides && #[trigger] slots[i].entries[s as int] is Some,
{
    let k = components(slots[i].path);
    assert(has_key(l, k));
    let j = choose|j: int| 0 <= j < l.len() && #[trigger] entry_key(l[j].1) == k;
    lemma_last_on_some(l, l[j].0, k, j);
    assert(l[j].0 < sides);
    assert(slots[i].entries[l[j].0 as int] == last_on(l, l[j].0, k));
}

proof fn lemma_last_on_some(l: Tagged, s: usize, k: Seq<Component>, j: int)
    requires
        0 <= j < l.len(),
        l[j].0 == s,
        entry_key(l[j].1) == k,
    ensures
        last_on(l, s, k) is Some,
    decreases l.len(),
{
    if j < l.len() - 1 && !(l.last().0 == s && entry_key(l.last().1) == k) {
        assert(l.drop_last()[j] == l[j]);
        lemma_last_on_some(l.drop_last(), s, k, j);
    }
}

/// The alignment is empty exactly when there are no entries.
proof fn lemma_slots_empty(l: Tagged, sides: nat, slots: Seq<SlotModel>)
    requires
        aligned(l, sides, slots),
        forall|j: int| 0 <= j < l.len() ==> (#[trigger] l[j]).0 < sides,
    ensures
        (slots.len() == 0) <==> (l.len() == 0),
{
    if l.len() > 0 {
        assert(has_key(l, entry_key(l[0].1)));
    }
    if slots.len() > 0 {
        lemma_slots_nonempty(l, sides, slots, 0);
    }
}

impl ComparisonEngine {
    /// The pairs of files whose contents must be hashed for comparing two
    /// sides, in the order in which the comparison takes their verdicts.
    pub fn content_checks(&self, left_entries: &Vec<FileEntry>, right_entries: &Vec<FileEntry>) -> (res: Vec<(FileEntry, FileEntry)>)
        ensures
            exists|slots: Seq<SlotModel>| #![trigger aligned(side_tagged(left_entries@, 0) + side_tagged(right_entries@, 1), 2, slots)]
                aligned(side_tagged(left_entries@, 0) + side_tagged(right_entries@, 1), 2, slots)
                    && pairs_view(res@) == pending_pairs(slots, self.verify_hashes),
    {
        let mut tagged: Vec<(usize, FileEntry)> = Vec::new();
        push_side(&mut tagged, 0, left_entries);
        push_side(&mut tagged, 1, right_entries);
        let slots = align(&tagged, 2);
        let ghost sm = slots_view(slots@);
        assert forall|j: int| 0 <= j < tagged_view(tagged@).len() implies (#[trigger] tagged_view(tagged@)[j]).0 < 2 by {
            assert(tagged_view(tagged@)[j].0 == tagged@[j].0);
        }
        let mut out: Vec<(FileEntry, FileEntry)> = Vec::new();
        let n = slots.len();
        for i in 0..n
            invariant
                n == slots@.len(),
                sm == slots_view(slots@),
                aligned(tagged_view(tagged@), 2, sm),
                forall|j: int| 0 <= j < tagged_view(tagged@).len() ==> (#[trigger] tagged_view(tagged@)[j]).0 < 2,
                pairs_view(out@) == pending_pairs(sm.take(i as int), self.verify_hashes),
        {
            let slot = &slots[i];
            proof {
                lemma_slots_nonempty(tagged_view(tagged@), 2, sm, i as int);
                assert(sm[i as int] == slot_view(*slot));
                assert(sm.take(i + 1).drop_last() =~= sm.take(i as int));
            }
            let ghost before = pairs_view(out@);
            if known_status(self.verify_hashes, &slot.entries[0], &slot.entries[1]).is_none() {
                match (&slot.entries[0], &slot.entries[1]) {
                    (Some(a), Some(b)) => {
                        out.push((a.duplicate(), b.duplicate()));
                        assert(pairs_view(out@) =~= before + seq![(a@, b@)]);
                    },
                    _ => {},
                }
            } else {
                assert(before + Seq::<(FileEntryModel, FileEntryModel)>::empty() =~= before);
            }
        }
        assert(sm.take(n as int) =~= sm);
        assert(tagged_view(tagged@) =~= side_tagged(left_entries@, 0) + side_tagged(right_entries@, 1));
        out
    }

    /// Compare two lists of file entries into a diff tree.
    pub fn compare(
        &self,
        left_entries: Vec<FileEntry>,
        right_entries: Vec<FileEntry>,
        verdicts: Vec<ContentVerdict>,
    ) -> (res: Result<Vec<DiffNode>, RCompareError>)
        ensures
            match res {
                Ok(nodes) => aligned(side_tagged(left_entries@, 0) + side_tagged(right_entries@, 1), 2, nodes@.map_values(|n: DiffNode| node_slot(n)))
                    && two_way_statuses(nodes@.map_values(|n: DiffNode| node_slot(n)), self.verify_hashes, verdicts@, 0, 0)
                    == Ok::<Seq<DiffStatus>, RCompareError>(nodes@.map_values(|n: DiffNode| n.status)),
                Err(e) => exists|slots: Seq<SlotModel>| #![trigger aligned(side_tagged(left_entries@, 0) + side_tagged(right_entries@, 1), 2, slots)]
                    aligned(side_tagged(left_entries@, 0) + side_tagged(right_entries@, 1), 2, slots)
                        && two_way_statuses(slots, self.verify_hashes, verdicts@, 0, 0) == Err::<Seq<DiffStatus>, RCompareError>(e),
            },
    {
        self.compare_with_vfs_and_cancel(left_entries, right_entries, verdicts, false)
    }

    /// Compare two lists of file entries into a diff tree (the entries may
    /// come from virtual file systems; their contents were hashed by the
    /// caller).
    pub fn compare_with_vfs(
        &self,
        left_entries: Vec<FileEntry>,
        right_entries: Vec<FileEntry>,
        verdicts: Vec<ContentVerdict>,
    ) -> (res: Result<Vec<DiffNode>, RCompareError>)
        ensures
            match res {
                Ok(nodes) => aligned(side_tagged(left_entries@, 0) + side_tagged(right_entries@, 1), 2, nodes@.map_values(|n: DiffNode| node_slot(n)))
                    && two_way_statuses(nodes@.map_values(|n: DiffNode| node_slot(n)), self.verify_hashes, verdicts@, 0, 0)
                    == Ok::<Seq<DiffStatus>, RCompareError>(nodes@.map_values(|n: DiffNode| n.status)),
                Err(e) => exists|slots: Seq<SlotModel>| #![trigger aligned(side_tagged(left_entries@, 0) + side_tagged(right_entries@, 1), 2, slots)]
                    aligned(side_tagged(left_entries@, 0) + side_tagged(right_entries@, 1), 2, slots)
                        && two_way_statuses(slots, self.verify_hashes, verdicts@, 0, 0) == Err::<Seq<DiffStatus>, RCompareError>(e),
            },
    {
        self.compare_with_vfs_and_cancel(left_entries, right_entries, verdicts, false)
    }

    /// Compare two lists of file entries into a diff tree, stopping with an
    /// error when the comparison was cancelled and there is any path.
    #[verifier::rlimit(100)]
    #[verifier::spinoff_prover]
    pub fn compare_with_vfs_and_cancel(
        &self,
        left_entries: Vec<FileEntry>,
        right_entries: Vec<FileEntry>,
        verdicts: Vec<ContentVerdict>,
        cancelled: bool,
    ) -> (res: Result<Vec<DiffNode>, RCompareError>)
        ensures
            cancelled && left_entries@.len() + right_entries@.len() > 0 ==> (res matches Err(RCompareError::Comparison(m)) && m@ == CANCELLED_MESSAGE@),
            !cancelled || left_entries@.len() + right_entries@.len() == 0 ==> match res {
                Ok(nodes) => aligned(side_tagged(left_entries@, 0) + side_tagged(right_entries@, 1), 2, nodes@.map_values(|n: DiffNode| node_slot(n)))
                    && two_way_statuses(nodes@.map_values(|n: DiffNode| node_slot(n)), self.verify_hashes, verdicts@, 0, 0)
                    == Ok::<Seq<DiffStatus>, RCompareError>(nodes@.map_values(|n: DiffNode| n.status)),
                Err(e) => exists|slots: Seq<SlotModel>| #![trigger aligned(side_tagged(left_entries@, 0) + side_tagged(right_entries@, 1), 2, slots)]
                    aligned(side_tagged(left_entries@, 0) + side_tagged(right_entries@, 1), 2, slots)
                        && two_way_statuses(slots, self.verify_hashes, verdicts@, 0, 0) == Err::<Seq<DiffStatus>, RCompareError>(e),
            },
    {
        let mut tagged: Vec<(usize, FileEntry)> = Vec::new();
        push_side(&mut tagged, 0, &left_entries);
        push_side(&mut tagged, 1, &right_entries);
        let ghost l = tagged_view(tagged@);
        assert(l =~= side_tagged(left_entries@, 0) + side_tagged(right_entries@, 1));
        let slots = align(&tagged, 2);
        let ghost sm = slots_view(slots@);
        assert forall|j: int| 0 <= j < l.len() implies (#[trigger] l[j]).0 < 2 by {
            assert(l[j].0 == tagged@[j].0);
        }
        proof {
            lemma_slots_empty(l, 2, sm);
        }
        if cancelled && slots.len() > 0 {
            let m = string_from_chars(chars_of(CANCELLED_MESSAGE).as_slice());
            return Err(RCompareError::Comparison(m));
        }
        let ghost vs = verdicts@;
        let mut pending = reversed(verdicts);
        let mut nodes: Vec<DiffNode> = Vec::new();
        let mut c: usize = 0;
        let n = slots.len();
        for i in 0..n
            invariant
                n == slots@.len(),
                sm == slots_view(slots@),
                aligned(l, 2, sm),
                nodes@.len() == i,
                forall|j: int| 0 <= j < i ==> node_slot(#[trigger] nodes@[j]) == sm[j],
                c <= i,
                vs == verdicts@,
                l == side_tagged(left_entries@, 0) + side_tagged(right_entries@, 1),
                forall|j: int| 0 <= j < l.len() ==> (#[trigger] l[j]).0 < 2,
                !(cancelled && n > 0),
                l.len() == left_entries@.len() + right_entries@.len(),
                (n == 0) <==> (l.len() == 0),
                pending@ == if c <= vs.len() {
                    vs.skip(c as int).reverse()
                } else {
                    Seq::empty()
                },
                two_way_statuses(sm, self.verify_hashes, vs, 0, 0) == prefixed(
                    nodes@.map_values(|n: DiffNode| n.status),
                    two_way_statuses(sm, self.verify_hashes, vs, i as int, c as int),
                ),
        {
            let slot = &slots[i];
            proof {
                lemma_slots_nonempty(l, 2, sm, i as int);
                assert(sm[i as int] == slot_view(*slot));
                assert(slot.entries@.len() == 2);
                assert(opt_entry_view(slot.entries@[0]) == sm[i as int].entries[0]);
                assert(opt_entry_view(slot.entries@[1]) == sm[i as int].entries[1]);
            }
            let ghost c0 = c as int;
            let status = match known_status(self.verify_hashes, &slot.entries[0], &slot.entries[1]) {
                Some(st) => st,
                None => {
                    let v = pending.pop();
                    proof {
                        if c < vs.len() {
                            assert(vs.skip(c as int).reverse().last() == vs[c as int]);
                            assert(vs.skip(c + 1).reverse() =~= vs.skip(c as int).reverse().drop_last());
                        } else {
                            assert(pending@ =~= Seq::<ContentVerdict>::empty());
                        }
                    }
                    let st = match v {
                        Some(ContentVerdict::Failed(e)) => {
                            proof {
                                assert(verdict_at(vs, c0) == Some(ContentVerdict::Failed(e)));
                                assert(two_way_statuses(sm, self.verify_hashes, vs, i as int, c0) == Err::<Seq<DiffStatus>, RCompareError>(e));
                                assert(aligned(side_tagged(left_entries@, 0) + side_tagged(right_entries@, 1), 2, sm));
                                assert(two_way_statuses(sm, self.verify_hashes, vs, 0, 0) == Err::<Seq<DiffStatus>, RCompareError>(e));
                                assert(vs == verdicts@);
                            }
                            return Err(e);
                        },
                        Some(ContentVerdict::Same) => DiffStatus::Same,
                        Some(_) => DiffStatus::Different,
                        None => DiffStatus::Unchecked,
                    };
                    c = c + 1;
                    st
                },
            };
            let ghost before = nodes@.map_values(|n: DiffNode| n.status);
            let node = two_way_node(slot, status);
            nodes.push(node);
            proof {
                assert(nodes@.map_values(|n: DiffNode| n.status) =~= before.push(status));
                let r = two_way_statuses(sm, self.verify_hashes, vs, i + 1, c as int);
                assert(two_way_statuses(sm, self.verify_hashes, vs, i as int, c0) == prefixed(seq![status], r));
                lemma_prefixed_step(before, status, r);
            }
        }
        proof {
            assert(nodes@.map_values(|n: DiffNode| node_slot(n)) =~= sm);
            assert(nodes@.map_values(|n: DiffNode| n.status) + Seq::<DiffStatus>::empty() =~= nodes@.map_values(|n: DiffNode| n.status));
        }
        Ok(nodes)
    }
}

/// The verdicts from `c` on, last first.
pub open spec fn remaining(vs: Seq<ContentVerdict>, c: int) -> Seq<ContentVerdict> {
    if c <= vs.len() {
        vs.skip(c).reverse()
    } else {
        Seq::empty()
    }
}

/// Whether two files are the same, taking the next verdict when their
/// contents are needed.
fn pair_verdict(
    verify: bool,
    a: &FileEntry,
    b: &FileEntry,
    pending: &mut Vec<ContentVerdict>,
    Ghost(vs): Ghost<Seq<ContentVerdict>>,
    Ghost(c): Ghost<int>,
) -> (res: Result<bool, RCompareError>)
    requires
        old(pending)@ == remaining(vs, c),
        0 <= c,
    ensures
        match res {
            Ok(v) => pair_same(verify, a@, b@, vs, c) matches Ok((v2, c2)) && v2 == v
                && final(pending)@ == remaining(vs, c2) && c <= c2,
            Err(e) => pair_same(verify, a@, b@, vs, c) == Err::<(bool, int), RCompareError>(e),
        },
{
    match known_same_files(verify, a, b) {
        Some(v) => Ok(v),
        None => {
            let v = pending.pop();
            proof {
                if c < vs.len() {
                    assert(vs.skip(c).reverse().last() == vs[c]);
                    assert(vs.skip(c + 1).reverse() =~= vs.skip(c).reverse().drop_last());
                } else {
                    assert(old(pending)@ =~= Seq::<ContentVerdict>::empty());
                }
            }
            match v {
                Some(ContentVerdict::Failed(e)) => Err(e),
                Some(ContentVerdict::Same) => Ok(true),
                _ => Ok(false),
            }
        },
    }
}

/// The three-way status of a path from what is present, when no contents
/// are needed.
fn presence_status(b: &Option<FileEntry>, l: &Option<FileEntry>, r: &Option<FileEntry>) -> (res: Option<ThreeWayDiffStatus>)
    ensures
        res == known_presence(opt_entry_view(*b), opt_entry_view(*l), opt_entry_view(*r)),
{
    match (b, l, r) {
        (Some(x), Some(y), Some(z)) => {
            if x.is_dir && y.is_dir && z.is_dir {
                Some(ThreeWayDiffStatus::AllSame)
            } else if x.is_dir || y.is_dir || z.is_dir {
                Some(ThreeWayDiffStatus::BothChanged)
            } else {
                None
            }
        },
        (Some(_), None, None) => Some(ThreeWayDiffStatus::BaseOnly),
        (None, Some(_), None) => Some(ThreeWayDiffStatus::LeftOnly),
        (None, None, Some(_)) => Some(ThreeWayDiffStatus::RightOnly),
        (Some(_), Some(_), None) => Some(ThreeWayDiffStatus::BaseAndLeft),
        (Some(_), None, Some(_)) => Some(ThreeWayDiffStatus::BaseAndRight),
        (None, Some(_), Some(_)) => Some(ThreeWayDiffStatus::BothAdded),
        (None, None, None) => Some(ThreeWayDiffStatus::AllSame),
    }
}

/// What one slot of a three-sided alignment comes to: its status and the
/// next verdict index, or the error of a failed verdict.
pub open spec fn three_way_step_of(
    sm: SlotModel,
    verify: bool,
    vs: Seq<ContentVerdict>,
    c: int,
) -> Result<(ThreeWayDiffStatus, int), RCompareError> {
    match known_presence(sm.entries[0], sm.entries[1], sm.entries[2]) {
        Some(st) => Ok((st, c)),
        None => match pair_same(verify, sm.entries[0].unwrap(), sm.entries[1].unwrap(), vs, c) {
            Err(e) => Err(e),
            Ok((bl, c1)) => match pair_same(verify, sm.entries[0].unwrap(), sm.entries[2].unwrap(), vs, c1) {
                Err(e) => Err(e),
                Ok((br, c2)) => match pair_same(verify, sm.entries[1].unwrap(), sm.entries[2].unwrap(), vs, c2) {
                    Err(e) => Err(e),
                    Ok((_, c3)) => Ok((three_way_from(bl, br), c3)),
                },
            },
        },
    }
}

/// The three-way status of one slot, taking verdicts as needed.
fn three_way_step(
    verify: bool,
    slot: &Slot,
    pending: &mut Vec<ContentVerdict>,
    Ghost(vs): Ghost<Seq<ContentVerdict>>,
    Ghost(c): Ghost<int>,
) -> (res: Result<ThreeWayDiffStatus, RCompareError>)
    requires
        slot.entries@.len() == 3,
        old(pending)@ == remaining(vs, c),
        0 <= c,
    ensures
        match res {
            Ok(st) => three_way_step_of(slot_view(*slot), verify, vs, c) matches Ok((st2, c2)) && st2 == st
                && final(pending)@ == remaining(vs, c2) && c <= c2,
            Err(e) => three_way_step_of(slot_view(*slot), verify, vs, c) == Err::<(ThreeWayDiffStatus, int), RCompareError>(e),
        },
{
    let ghost sm = slot_view(*slot);
    assert(sm.entries[0] == opt_entry_view(slot.entries@[0]));
    assert(sm.entries[1] == opt_entry_view(slot.entries@[1]));
    assert(sm.entries[2] == opt_entry_view(slot.entries@[2]));
    match presence_status(&slot.entries[0], &slot.entries[1], &slot.entries[2]) {
        Some(st) => Ok(st),
        None => {
            match (&slot.entries[0], &slot.entries[1], &slot.entries[2]) {
                (Some(b), Some(l), Some(r)) => {
                    let ghost c1 = match pair_same(verify, b@, l@, vs, c) {
                        Ok((_, x)) => x,
                        Err(_) => c,
                    };
                    let bl = pair_verdict(verify, b, l, pending, Ghost(vs), Ghost(c))?;
                    let ghost c2 = match pair_same(verify, b@, r@, vs, c1) {
                        Ok((_, x)) => x,
                        Err(_) => c1,
                    };
                    let br = pair_verdict(verify, b, r, pending, Ghost(vs), Ghost(c1))?;
                    let _lr = pair_verdict(verify, l, r, pending, Ghost(vs), Ghost(c2))?;
                    let st = if bl && br {
                        ThreeWayDiffStatus::AllSame
                    } else if bl && !br {
                        ThreeWayDiffStatus::RightChanged
                    } else if !bl && br {
                        ThreeWayDiffStatus::LeftChanged
                    } else {
                        ThreeWayDiffStatus::BothChanged
                    };
                    Ok(st)
                },
                _ => {
                    assert(false);
                    Ok(ThreeWayDiffStatus::AllSame)
                },
            }
        },
    }
}

impl ComparisonEngine {
    /// The pairs of files whose contents must be hashed for comparing three
    /// sides, in the order in which the comparison takes their verdicts.
    pub fn three_way_content_checks(
        &self,
        base_entries: &Vec<FileEntry>,
        left_entries: &Vec<FileEntry>,
        right_entries: &Vec<FileEntry>,
    ) -> (res: Vec<(FileEntry, FileEntry)>)
        ensures
            exists|slots: Seq<SlotModel>| #![trigger aligned(side_tagged(base_entries@, 0) + side_tagged(left_entries@, 1) + side_tagged(right_entries@, 2), 3, slots)]
                aligned(side_tagged(base_entries@, 0) + side_tagged(left_entries@, 1) + side_tagged(right_entries@, 2), 3, slots)
                    && pairs_view(res@) == three_way_pending(slots, self.verify_hashes),
    {
        let mut tagged: Vec<(usize, FileEntry)> = Vec::new();
        push_side(&mut tagged, 0, base_entries);
        push_side(&mut tagged, 1, left_entries);
        push_side(&mut tagged, 2, right_entries);
        let slots = align(&tagged, 3);
        let ghost sm = slots_view(slots@);
        let mut out: Vec<(FileEntry, FileEntry)> = Vec::new();
        let n = slots.len();
        for i in 0..n
            invariant
                n == slots@.len(),
                sm == slots_view(slots@),
                aligned(tagged_view(tagged@), 3, sm),
                pairs_view(out@) == three_way_pending(sm.take(i as int), self.verify_hashes),
        {
            let slot = &slots[i];
            proof {
                assert(sm[i as int] == slot_view(*slot));
                assert(sm.take(i + 1).drop_last() =~= sm.take(i as int));
                assert(slot.entries@.len() == 3);
                assert(sm[i as int].entries[0] == opt_entry_view(slot.entries@[0]));
                assert(sm[i as int].entries[1] == opt_entry_view(slot.entries@[1]));
                assert(sm[i as int].entries[2] == opt_entry_view(slot.entries@[2]));
            }
            let ghost before = pairs_view(out@);
            if presence_status(&slot.entries[0], &slot.entries[1], &slot.entries[2]).is_none() {
                match (&slot.entries[0], &slot.entries[1], &slot.entries[2]) {
                    (Some(b), Some(l), Some(r)) => {
                        if known_same_files(self.verify_hashes, b, l).is_none() {
                            out.push((b.duplicate(), l.duplicate()));
                        }
                        if known_same_files(self.verify_hashes, b, r).is_none() {
                            out.push((b.duplicate(), r.duplicate()));
                        }
                        if known_same_files(self.verify_hashes, l, r).is_none() {
                            out.push((l.duplicate(), r.duplicate()));
                        }
                        assert(pairs_view(out@) =~= three_way_pending(sm.take(i + 1), self.verify_hashes));
                    },
                    _ => {},
                }
            } else {
                assert(before + Seq::<(FileEntryModel, FileEntryModel)>::empty() =~= before);
            }
        }
        assert(sm.take(n as int) =~= sm);
        assert(tagged_view(tagged@) =~= side_tagged(base_entries@, 0) + side_tagged(left_entries@, 1) + side_tagged(right_entries@, 2));
        out
    }

    /// Compare three lists of file entries (base, left, right) into a
    /// three-way diff tree.
    pub fn compare_three_way(
        &self,
        base_entries: Vec<FileEntry>,
        left_entries: Vec<FileEntry>,
        right_entries: Vec<FileEntry>,
        verdicts: Vec<ContentVerdict>,
    ) -> (res: Result<Vec<ThreeWayDiffNode>, RCompareError>)
        ensures
            match res {
                Ok(nodes) => aligned(side_tagged(base_entries@, 0) + side_tagged(left_entries@, 1) + side_tagged(right_entries@, 2), 3, nodes@.map_values(|n: ThreeWayDiffNode| three_way_slot(n)))
                    && three_way_statuses(nodes@.map_values(|n: ThreeWayDiffNode| three_way_slot(n)), self.verify_hashes, verdicts@, 0, 0)
                    == Ok::<Seq<ThreeWayDiffStatus>, RCompareError>(nodes@.map_values(|n: ThreeWayDiffNode| n.status)),
                Err(e) => exists|slots: Seq<SlotModel>| #![trigger aligned(side_tagged(base_entries@, 0) + side_tagged(left_entries@, 1) + side_tagged(right_entries@, 2), 3, slots)]
                    aligned(side_tagged(base_entries@, 0) + side_tagged(left_entries@, 1) + side_tagged(right_entries@, 2), 3, slots)
                        && three_way_statuses(slots, self.verify_hashes, verdicts@, 0, 0) == Err::<Seq<ThreeWayDiffStatus>, RCompareError>(e),
            },
    {
        self.compare_three_way_with_vfs(base_entries, left_entries, right_entries, verdicts)
    }

    /// Compare three lists of file entries (possibly from virtual file
    /// systems) into a three-way diff tree.
    #[verifier::rlimit(60)]
    pub fn compare_three_way_with_vfs(
        &self,
        base_entries: Vec<FileEntry>,
        left_entries: Vec<FileEntry>,
        right_entries: Vec<FileEntry>,
        verdicts: Vec<ContentVerdict>,
    ) -> (res: Result<Vec<ThreeWayDiffNode>, RCompareError>)
        ensures
            match res {
                Ok(nodes) => aligned(side_tagged(base_entries@, 0) + side_tagged(left_entries@, 1) + side_tagged(right_entries@, 2), 3, nodes@.map_values(|n: ThreeWayDiffNode| three_way_slot(n)))
                    && three_way_statuses(nodes@.map_values(|n: ThreeWayDiffNode| three_way_slot(n)), self.verify_hashes, verdicts@, 0, 0)
                    == Ok::<Seq<ThreeWayDiffStatus>, RCompareError>(nodes@.map_values(|n: ThreeWayDiffNode| n.status)),
                Err(e) => exists|slots: Seq<SlotModel>| #![trigger aligned(side_tagged(base_entries@, 0) + side_tagged(left_entries@, 1) + side_tagged(right_entries@, 2), 3, slots)]
                    aligned(side_tagged(base_entries@, 0) + side_tagged(left_entries@, 1) + side_tagged(right_entries@, 2), 3, slots)
                        && three_way_statuses(slots, self.verify_hashes, verdicts@, 0, 0) == Err::<Seq<ThreeWayDiffStatus>, RCompareError>(e),
            },
    {
        let mut tagged: Vec<(usize, FileEntry)> = Vec::new();
        push_side(&mut tagged, 0, &base_entries);
        push_side(&mut tagged, 1, &left_entries);
        push_side(&mut tagged, 2, &right_entries);
        let ghost l = tagged_view(tagged@);
        assert(l =~= side_tagged(base_entries@, 0) + side_tagged(left_entries@, 1) + side_tagged(right_entries@, 2));
        let slots = align(&tagged, 3);
        let ghost sm = slots_view(slots@);
        let ghost vs = verdicts@;
        let mut pending = reversed(verdicts);
        let mut nodes: Vec<ThreeWayDiffNode> = Vec::new();
        let ghost mut c: int = 0;
        let n = slots.len();
        for i in 0..n
            invariant
                n == slots@.len(),
                sm == slots_view(slots@),
                aligned(l, 3, sm),
                vs == verdicts@,
                l == side_tagged(base_entries@, 0) + side_tagged(left_entries@, 1) + side_tagged(right_entries@, 2),
                nodes@.len() == i,
                forall|j: int| 0 <= j < i ==> three_way_slot(#[trigger] nodes@[j]) == sm[j],
                0 <= c,
                pending@ == remaining(vs, c),
                three_way_statuses(sm, self.verify_hashes, vs, 0, 0) == prefixed(
                    nodes@.map_values(|n: ThreeWayDiffNode| n.status),
                    three_way_statuses(sm, self.verify_hashes, vs, i as int, c),
                ),
        {
            let slot = &slots[i];
            proof {
                assert(sm[i as int] == slot_view(*slot));
                assert(slot.entries@.len() == 3);
            }
            let ghost c0 = c;
            let r = three_way_step(self.verify_hashes, slot, &mut pending, Ghost(vs), Ghost(c));
            let status = match r {
                Ok(st) => st,
                Err(e) => {
                    proof {
                        assert(three_way_statuses(sm, self.verify_hashes, vs, i as int, c0) == Err::<Seq<ThreeWayDiffStatus>, RCompareError>(e));
                        assert(three_way_statuses(sm, self.verify_hashes, vs, 0, 0) == Err::<Seq<ThreeWayDiffStatus>, RCompareError>(e));
                    }
                    return Err(e);
                },
            };
            proof {
                c = match three_way_step_of(sm[i as int], self.verify_hashes, vs, c0) {
                    Ok((_, x)) => x,
                    Err(_) => c0,
                };
            }
            let ghost before = nodes@.map_values(|n: ThreeWayDiffNode| n.status);
            let node = three_way_node(slot, status);
            nodes.push(node);
            proof {
                assert(nodes@.map_values(|n: ThreeWayDiffNode| n.status) =~= before.push(status));
                let r2 = three_way_statuses(sm, self.verify_hashes, vs, i + 1, c);
                assert(three_way_statuses(sm, self.verify_hashes, vs, i as int, c0) == prefixed(seq![status], r2));
                lemma_prefixed_step(before, status, r2);
            }
        }
        proof {
            assert(nodes@.map_values(|n: ThreeWayDiffNode| three_way_slot(n)) =~= sm);
            assert(nodes@.map_values(|n: ThreeWayDiffNode| n.status) + Seq::<ThreeWayDiffStatus>::empty() =~= nodes@.map_values(|n: ThreeWayDiffNode| n.status));
        }
        Ok(nodes)
    }
}


/// What the two-way status of an aligned path must be, from its entries:
/// a path on one side only is an orphan of that side; two directories are
/// the same; a directory and a file differ; two files of different sizes
/// differ (so two files reported the same have equal sizes); and without
/// hash verification, two files of equal size are the same when their
/// modification times are equal and unchecked otherwise.
pub open spec fn two_way_status_fits(s: SlotModel, verify: bool, st: DiffStatus) -> bool {
    match (s.entries[0], s.entries[1]) {
        (Some(l), None) => st == DiffStatus::OrphanLeft,
        (None, Some(r)) => st == DiffStatus::OrphanRight,
        (Some(l), Some(r)) => {
            &&& (l.is_dir && r.is_dir ==> st == DiffStatus::Same)
            &&& (l.is_dir != r.is_dir ==> st == DiffStatus::Different)
            &&& (!l.is_dir && !r.is_dir && l.size != r.size ==> st == DiffStatus::Different)
            &&& (!l.is_dir && !r.is_dir && st == DiffStatus::Same ==> l.size == r.size)
            &&& (!verify && !l.is_dir && !r.is_dir && l.size == r.size ==> st == if l.modified == r.modified {
                DiffStatus::Same
            } else {
                DiffStatus::Unchecked
            })
        },
        (None, None) => true,
    }
}

/// Every status of a two-way comparison fits the entries of its path,
/// whatever the content verdicts.
pub proof fn lemma_two_way_statuses_fit(
    slots: Seq<SlotModel>,
    verify: bool,
    verdicts: Seq<ContentVerdict>,
    i: int,
    c: int,
)
    requires
        0 <= i <= slots.len(),
    ensures
        two_way_statuses(slots, verify, verdicts, i, c) matches Ok(sts) ==> {
            &&& sts.len() == slots.len() - i
            &&& forall|k: int| 0 <= k < sts.len() ==> two_way_status_fits(slots[i + k], verify, #[trigger] sts[k])
        },
    decreases slots.len() - i,
{
    if i < slots.len() {
        let res = two_way_statuses(slots, verify, verdicts, i, c);
        match known_two_way(verify, slots[i].entries[0], slots[i].entries[1]) {
            Some(st) => {
                lemma_two_way_statuses_fit(slots, verify, verdicts, i + 1, c);
                if let Ok(sts) = res {
                    let rest = two_way_statuses(slots, verify, verdicts, i + 1, c)->Ok_0;
                    assert(sts == seq![st] + rest);
                    assert forall|k: int| 0 <= k < sts.len() implies two_way_status_fits(slots[i + k], verify, #[trigger] sts[k]) by {
                        if k > 0 {
                            assert(sts[k] == rest[k - 1]);
                            assert(i + k == (i + 1) + (k - 1));
                        }
                    }
                }
            },
            None => {
                lemma_two_way_statuses_fit(slots, verify, verdicts, i + 1, c + 1);
                if let Ok(sts) = res {
                    let rest = two_way_statuses(slots, verify, verdicts, i + 1, c + 1)->Ok_0;
                    assert forall|k: int| 0 <= k < sts.len() implies two_way_status_fits(slots[i + k], verify, #[trigger] sts[k]) by {
                        if k > 0 {
                            assert(sts[k] == rest[k - 1]);
                            assert(i + k == (i + 1) + (k - 1));
                        }
                    }
                }
            },
        }
    }
}

/// In a two-way comparison result, each node's status fits its entries:
/// in particular, two files of different sizes are reported different
/// whether or not hashes are verified.
pub proof fn lemma_compare_statuses_fit(nodes: Seq<DiffNode>, verify: bool, verdicts: Seq<ContentVerdict>)
    requires
        two_way_statuses(nodes.map_values(|n: DiffNode| node_slot(n)), verify, verdicts, 0, 0)
            == Ok::<Seq<DiffStatus>, RCompareError>(nodes.map_values(|n: DiffNode| n.status)),
    ensures
        forall|k: int| 0 <= k < nodes.len() ==> two_way_status_fits(node_slot(#[trigger] nodes[k]), verify, nodes[k].status),
{
    let slots = nodes.map_values(|n: DiffNode| node_slot(n));
    lemma_two_way_statuses_fit(slots, verify, verdicts, 0, 0);
    assert forall|k: int| 0 <= k < nodes.len() implies two_way_status_fits(node_slot(#[trigger] nodes[k]), verify, nodes[k].status) by {
        assert(slots[0 + k] == node_slot(nodes[k]));
        assert(nodes.map_values(|n: DiffNode| n.status)[k] == nodes[k].status);
    }
}

/// What the three-way status of an aligned path must be, from its
/// entries: a path on one side only is that side's, one on two sides is
/// named by those sides; three directories are all the same, and a mix of
/// directories and files has changed on both sides; when all three are
/// files, a right side of another size than the base has changed (right or
/// both changed), and so has a left side of another size; and without hash
/// verification, three files of equal sizes and times are all the same, a
/// base and left that agree with a right that does not make the right side
/// the changed one, and a base and right that agree with a left that does
/// not make the left side the changed one.
pub open spec fn three_way_status_fits(s: SlotModel, verify: bool, st: ThreeWayDiffStatus) -> bool {
    match (s.entries[0], s.entries[1], s.entries[2]) {
        (Some(_), None, None) => st == ThreeWayDiffStatus::BaseOnly,
        (None, Some(_), None) => st == ThreeWayDiffStatus::LeftOnly,
        (None, None, Some(_)) => st == ThreeWayDiffStatus::RightOnly,
        (Some(_), Some(_), None) => st == ThreeWayDiffStatus::BaseAndLeft,
        (Some(_), None, Some(_)) => st == ThreeWayDiffStatus::BaseAndRight,
        (None, Some(_), Some(_)) => st == ThreeWayDiffStatus::BothAdded,
        (Some(b), Some(l), Some(r)) => (b.is_dir && l.is_dir && r.is_dir ==> st == ThreeWayDiffStatus::AllSame)
            && (!(b.is_dir && l.is_dir && r.is_dir) && (b.is_dir || l.is_dir || r.is_dir) ==> st
            == ThreeWayDiffStatus::BothChanged) && (!b.is_dir && !l.is_dir && !r.is_dir ==> {
            &&& (b.size != r.size ==> st == ThreeWayDiffStatus::RightChanged || st == ThreeWayDiffStatus::BothChanged)
            &&& (b.size != l.size ==> st == ThreeWayDiffStatus::LeftChanged || st == ThreeWayDiffStatus::BothChanged)
            &&& (!verify ==> {
                let bl = b.size == l.size && b.modified == l.modified;
                let br = b.size == r.size && b.modified == r.modified;
                &&& (bl && br ==> st == ThreeWayDiffStatus::AllSame)
                &&& (bl && !br ==> st == ThreeWayDiffStatus::RightChanged)
                &&& (!bl && br ==> st == ThreeWayDiffStatus::LeftChanged)
                &&& (!bl && !br ==> st == ThreeWayDiffStatus::BothChanged)
            })
        }),
        _ => true,
    }
}

/// The status of one three-way step fits the entries of its path.
proof fn lemma_three_way_step_fits(sm: SlotModel, verify: bool, vs: Seq<ContentVerdict>, c: int)
    ensures
        three_way_step_of(sm, verify, vs, c) matches Ok((st, _)) ==> three_way_status_fits(sm, verify, st),
{
}

/// Every status of a three-way comparison fits the entries of its path,
/// whatever the content verdicts.
pub proof fn lemma_three_way_statuses_fit(
    slots: Seq<SlotModel>,
    verify: bool,
    verdicts: Seq<ContentVerdict>,
    i: int,
    c: int,
)
    requires
        0 <= i <= slots.len(),
    ensures
        three_way_statuses(slots, verify, verdicts, i, c) matches Ok(sts) ==> {
            &&& sts.len() == slots.len() - i
            &&& forall|k: int| 0 <= k < sts.len() ==> three_way_status_fits(slots[i + k], verify, #[trigger] sts[k])
        },
    decreases slots.len() - i,
{
    if i < slots.len() {
        lemma_three_way_step_fits(slots[i], verify, verdicts, c);
        if let Ok((st, c2)) = three_way_step_of(slots[i], verify, verdicts, c) {
            lemma_three_way_statuses_fit(slots, verify, verdicts, i + 1, c2);
            if let Ok(sts) = three_way_statuses(slots, verify, verdicts, i, c) {
                let rest = three_way_statuses(slots, verify, verdicts, i + 1, c2)->Ok_0;
                assert(sts == seq![st] + rest);
                assert forall|k: int| 0 <= k < sts.len() implies three_way_status_fits(slots[i + k], verify, #[trigger] sts[k]) by {
                    if k > 0 {
                        assert(sts[k] == rest[k - 1]);
                        assert(i + k == (i + 1) + (k - 1));
                    }
                }
            }
        }
    }
}

/// In a three-way comparison result, each node's status fits its entries:
/// in particular the changed side is the one that differs from the base.
pub proof fn lemma_compare_three_way_statuses_fit(nodes: Seq<ThreeWayDiffNode>, verify: bool, verdicts: Seq<ContentVerdict>)
    requires
        three_way_statuses(nodes.map_values(|n: ThreeWayDiffNode| three_way_slot(n)), verify, verdicts, 0, 0)
            == Ok::<Seq<ThreeWayDiffStatus>, RCompareError>(nodes.map_values(|n: ThreeWayDiffNode| n.status)),
    ensures
        forall|k: int| 0 <= k < nodes.len() ==> three_way_status_fits(three_way_slot(#[trigger] nodes[k]), verify, nodes[k].status),
{
    let slots = nodes.map_values(|n: ThreeWayDiffNode| three_way_slot(n));
    lemma_three_way_statuses_fit(slots, verify, verdicts, 0, 0);
    assert forall|k: int| 0 <= k < nodes.len() implies three_way_status_fits(three_way_slot(#[trigger] nodes[k]), verify, nodes[k].status) by {
        assert(slots[0 + k] == three_way_slot(nodes[k]));
        assert(nodes.map_values(|n: ThreeWayDiffNode| n.status)[k] == nodes[k].status);
    }
}


/// All content verdicts are `Same` (when `same`) or all are `Different`.
pub open spec fn uniform_verdicts(verdicts: Seq<ContentVerdict>, same: bool) -> bool {
    forall|j: int| 0 <= j < verdicts.len() ==> if same {
        verdicts[j] is Same
    } else {
        verdicts[j] is Different
    }
}

/// With hash verification, two files of equal size take their status from
/// the content verdicts: if all verdicts are `Same`, such a pair is `Same`;
/// if all are `Different`, it is `Different`; a pair left without a verdict
/// is `Unchecked`.
pub proof fn lemma_two_way_verdicts(
    slots: Seq<SlotModel>,
    verdicts: Seq<ContentVerdict>,
    same: bool,
    i: int,
    c: int,
)
    requires
        0 <= i <= slots.len(),
        0 <= c,
        uniform_verdicts(verdicts, same),
    ensures
        two_way_statuses(slots, true, verdicts, i, c) matches Ok(sts) && sts.len() == slots.len() - i
            && forall|k: int| 0 <= k < sts.len() ==> (match (#[trigger] slots[i + k]).entries[0] {
                Some(l) => match slots[i + k].entries[1] {
                    Some(r) => !l.is_dir && !r.is_dir && l.size == r.size ==> sts[k] == (if same {
                        DiffStatus::Same
                    } else {
                        DiffStatus::Different
                    }) || sts[k] == DiffStatus::Unchecked,
                    None => true,
                },
                None => true,
            }),
    decreases slots.len() - i,
{
    if i < slots.len() {
        let c2 = if known_two_way(true, slots[i].entries[0], slots[i].entries[1]) is Some { c } else { c + 1 };
        lemma_two_way_verdicts(slots, verdicts, same, i + 1, c2);
        let rest = two_way_statuses(slots, true, verdicts, i + 1, c2)->Ok_0;
        if c < verdicts.len() {
            assert(if same { verdicts[c] is Same } else { verdicts[c] is Different });
        }
        let sts = two_way_statuses(slots, true, verdicts, i, c)->Ok_0;
        assert forall|k: int| 0 <= k < sts.len() implies (match (#[trigger] slots[i + k]).entries[0] {
            Some(l) => match slots[i + k].entries[1] {
                Some(r) => !l.is_dir && !r.is_dir && l.size == r.size ==> sts[k] == (if same {
                    DiffStatus::Same
                } else {
                    DiffStatus::Different
                }) || sts[k] == DiffStatus::Unchecked,
                None => true,
            },
            None => true,
        }) by {
            if k > 0 {
                assert(sts[k] == rest[k - 1]);
                assert(i + k == (i + 1) + (k - 1));
            }
        }
    }
}


/// With hash verification, three files of equal size take their status
/// from the content verdicts: if all verdicts are `Same`, the path is
/// `AllSame`; if all are `Different`, it is `BothChanged`.
pub proof fn lemma_three_way_verdicts(sm: SlotModel, vs: Seq<ContentVerdict>, same: bool, c: int)
    requires
        0 <= c,
        c + 3 <= vs.len(),
        uniform_verdicts(vs, same),
        sm.entries[0] is Some && sm.entries[1] is Some && sm.entries[2] is Some,
        !sm.entries[0]->0.is_dir && !sm.entries[1]->0.is_dir && !sm.entries[2]->0.is_dir,
        sm.entries[0]->0.size == sm.entries[1]->0.size && sm.entries[1]->0.size == sm.entries[2]->0.size,
    ensures
        three_way_step_of(sm, true, vs, c) matches Ok((st, _)) && st == if same {
            ThreeWayDiffStatus::AllSame
        } else {
            ThreeWayDiffStatus::BothChanged
        },
{
    assert(if same { vs[c] is Same } else { vs[c] is Different });
    assert(if same { vs[c + 1] is Same } else { vs[c + 1] is Different });
    assert(if same { vs[c + 2] is Same } else { vs[c + 2] is Different });
}

} // verus!
