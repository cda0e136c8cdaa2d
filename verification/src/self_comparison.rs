//! A tree compared with itself: every aligned path holds the same entry on
//! both sides, so without hash verification every path is the same.

use crate::comparison::{
    aligned, entry_key, has_key, known_pair, known_two_way, last_on, side_tagged, two_way_statuses, ContentVerdict,
    SlotModel, Tagged,
};
use crate::error::RCompareError;
use crate::paths::Component;
use crate::types::{DiffStatus, FileEntry, FileEntryModel};
use vstd::prelude::*;

verus! {

/// The last entry of the list with path components `k`.
pub open spec fn last_model(x: Seq<FileEntry>, k: Seq<Component>) -> Option<FileEntryModel>
    decreases x.len(),
{
    if x.len() == 0 {
        None
    } else if entry_key(x.last()@) == k {
        Some(x.last()@)
    } else {
        last_model(x.drop_last(), k)
    }
}

proof fn lemma_last_on_own_side(x: Seq<FileEntry>, s: usize, k: Seq<Component>)
    ensures
        last_on(side_tagged(x, s), s, k) == last_model(x, k),
    decreases x.len(),
{
    if x.len() > 0 {
        lemma_last_on_own_side(x.drop_last(), s, k);
        assert(side_tagged(x, s).drop_last() =~= side_tagged(x.drop_last(), s));
        assert(side_tagged(x, s).last() == (s, x.last()@));
    }
}

proof fn lemma_last_on_other_side(x: Seq<FileEntry>, s: usize, other: usize, k: Seq<Component>)
    requires
        s != other,
    ensures
        last_on(side_tagged(x, s), other, k) is None,
    decreases x.len(),
{
    if x.len() > 0 {
        lemma_last_on_other_side(x.drop_last(), s, other, k);
        assert(side_tagged(x, s).drop_last() =~= side_tagged(x.drop_last(), s));
        assert(side_tagged(x, s).last() == (s, x.last()@));
    }
}

proof fn lemma_last_on_concat(u: Tagged, t: Tagged, s: usize, k: Seq<Component>)
    ensures
        last_on(u + t, s, k) == if last_on(t, s, k) is Some {
            last_on(t, s, k)
        } else {
            last_on(u, s, k)
        },
    decreases t.len(),
{
    if t.len() == 0 {
        assert(u + t =~= u);
    } else {
        lemma_last_on_concat(u, t.drop_last(), s, k);
        assert((u + t).drop_last() =~= u + t.drop_last());
        assert((u + t).last() == t.last());
    }
}

proof fn lemma_last_model_some(x: Seq<FileEntry>, j: int, k: Seq<Component>)
    requires
        0 <= j < x.len(),
        entry_key(x[j]@) == k,
    ensures
        last_model(x, k) is Some,
    decreases x.len(),
{
    if entry_key(x.last()@) != k {
        assert(j < x.len() - 1);
        assert(x.drop_last()[j] == x[j]);
        lemma_last_model_some(x.drop_last(), j, k);
    }
}

/// Both sides of a path of the tree compared with itself hold the tree's
/// last entry with that path.
proof fn lemma_both_sides(x: Seq<FileEntry>, k: Seq<Component>)
    ensures
        last_on(side_tagged(x, 0) + side_tagged(x, 1), 0, k) == last_model(x, k),
        last_on(side_tagged(x, 0) + side_tagged(x, 1), 1, k) == last_model(x, k),
        has_key(side_tagged(x, 0) + side_tagged(x, 1), k) ==> last_model(x, k) is Some,
{
    let a = side_tagged(x, 0);
    let b = side_tagged(x, 1);
    lemma_last_on_concat(a, b, 0, k);
    lemma_last_on_concat(a, b, 1, k);
    lemma_last_on_other_side(x, 1, 0, k);
    lemma_last_on_other_side(x, 0, 1, k);
    lemma_last_on_own_side(x, 0, k);
    lemma_last_on_own_side(x, 1, k);
    if has_key(a + b, k) {
        let i = choose|i: int| 0 <= i < (a + b).len() && #[trigger] entry_key((a + b)[i].1) == k;
        if i < x.len() {
            assert((a + b)[i] == a[i]);
            lemma_last_model_some(x, i, k);
        } else {
            assert((a + b)[i] == b[i - x.len()]);
            lemma_last_model_some(x, i - x.len(), k);
        }
    }
}

proof fn lemma_statuses_same(slots: Seq<SlotModel>, x: Seq<FileEntry>, verdicts: Seq<ContentVerdict>, i: int)
    requires
        0 <= i <= slots.len(),
        forall|j: int| 0 <= j < slots.len() ==> (#[trigger] slots[j]).entries.len() == 2 && slots[j].entries[0]
            is Some && slots[j].entries[0] == slots[j].entries[1],
    ensures
        two_way_statuses(slots, false, verdicts, i, 0) == Ok::<Seq<DiffStatus>, RCompareError>(
            Seq::new((slots.len() - i) as nat, |j: int| DiffStatus::Same),
        ),
    decreases slots.len() - i,
{
    if i < slots.len() {
        lemma_statuses_same(slots, x, verdicts, i + 1);
        let e = slots[i].entries[0]->Some_0;
        assert(known_pair(false, e, e) == Some(DiffStatus::Same));
        assert(known_two_way(false, slots[i].entries[0], slots[i].entries[1]) == Some(DiffStatus::Same));
        assert(seq![DiffStatus::Same] + Seq::new((slots.len() - (i + 1)) as nat, |j: int| DiffStatus::Same)
            =~= Seq::new((slots.len() - i) as nat, |j: int| DiffStatus::Same));
    } else {
        assert(Seq::new(0nat, |j: int| DiffStatus::Same) =~= Seq::<DiffStatus>::empty());
    }
}

/// A tree compared with itself without hash verification: every aligned
/// path is the same (each holds the same entry on both sides), whatever
/// content verdicts are handed in.
pub proof fn lemma_tree_matches_itself(x: Seq<FileEntry>, slots: Seq<SlotModel>, verdicts: Seq<ContentVerdict>)
    requires
        aligned(side_tagged(x, 0) + side_tagged(x, 1), 2, slots),
    ensures
        two_way_statuses(slots, false, verdicts, 0, 0) == Ok::<Seq<DiffStatus>, RCompareError>(
            Seq::new(slots.len(), |j: int| DiffStatus::Same),
        ),
{
    let l = side_tagged(x, 0) + side_tagged(x, 1);
    assert forall|j: int| 0 <= j < slots.len() implies (#[trigger] slots[j]).entries.len() == 2
        && slots[j].entries[0] is Some && slots[j].entries[0] == slots[j].entries[1] by {
        let k = crate::paths::components(slots[j].path);
        lemma_both_sides(x, k);
        assert(has_key(l, k));
        assert(slots[j].entries[0usize as int] == last_on(l, 0usize, k));
        assert(slots[j].entries[1usize as int] == last_on(l, 1usize, k));
    }
    lemma_statuses_same(slots, x, verdicts, 0);
}

} // verus!
