//! Three-way merge of file trees: each path of the base, left and right
//! trees is resolved to one side, merged automatically, or reported as a
//! conflict.
//!
//! A tree is a list of `(path, entry)` pairs in which no path occurs twice.

use crate::error::RCompareError;
use crate::text::{chars_of, same_text, string_from_chars};
use crate::types::{opt_entry_view, ConflictType, FileEntry, FileEntryModel, MergeConflict, MergeResolution, MergeResult, MergeSource};
use vstd::prelude::*;

verus! {

/// Model of a [`MergeConflict`].
pub struct ConflictModel {
    pub path: Seq<char>,
    pub conflict_type: ConflictType,
    pub base: Option<FileEntryModel>,
    pub left: Option<FileEntryModel>,
    pub right: Option<FileEntryModel>,
}

/// Model of a [`MergeResult`].
pub struct MergeResultModel {
    pub path: Seq<char>,
    pub resolution: MergeResolution,
    pub conflict: Option<ConflictModel>,
    pub resolved_source: Option<MergeSource>,
}

impl View for MergeConflict {
    type V = ConflictModel;

    open spec fn view(&self) -> ConflictModel {
        ConflictModel {
            path: self.path@,
            conflict_type: self.conflict_type,
            base: opt_entry_view(self.base),
            left: opt_entry_view(self.left),
            right: opt_entry_view(self.right),
        }
    }
}

impl View for MergeResult {
    type V = MergeResultModel;

    open spec fn view(&self) -> MergeResultModel {
        MergeResultModel {
            path: self.path@,
            resolution: self.resolution,
            conflict: match self.conflict {
                Some(c) => Some(c@),
                None => None,
            },
            resolved_source: self.resolved_source,
        }
    }
}

/// The model of a tree: its paths with their entries.
pub open spec fn tree_view(t: Seq<(String, FileEntry)>) -> Seq<(Seq<char>, FileEntryModel)> {
    t.map_values(|p: (String, FileEntry)| (p.0@, p.1@))
}

/// No path occurs twice in the tree.
pub open spec fn distinct_paths(t: Seq<(Seq<char>, FileEntryModel)>) -> bool {
    forall|i: int, j: int| 0 <= i < j < t.len() ==> #[trigger] t[i].0 != #[trigger] t[j].0
}

/// The entry of `path` in the tree, if it has one.
pub open spec fn lookup(t: Seq<(Seq<char>, FileEntryModel)>, path: Seq<char>) -> Option<FileEntryModel>
    decreases t.len(),
{
    if t.len() == 0 {
        None
    } else if t.last().0 == path {
        Some(t.last().1)
    } else {
        lookup(t.drop_last(), path)
    }
}

/// The paths of a tree, in order.
pub open spec fn paths_of(t: Seq<(Seq<char>, FileEntryModel)>) -> Seq<Seq<char>> {
    t.map_values(|p: (Seq<char>, FileEntryModel)| p.0)
}

/// The paths of `t` that occur in neither `a` nor `b`, in order.
pub open spec fn new_paths(
    t: Seq<(Seq<char>, FileEntryModel)>,
    a: Seq<(Seq<char>, FileEntryModel)>,
    b: Seq<(Seq<char>, FileEntryModel)>,
) -> Seq<Seq<char>> {
    paths_of(t).filter(|p: Seq<char>| lookup(a, p) is None && lookup(b, p) is None)
}

/// Every path of the three trees, once: the base paths, then the left paths
/// not in the base, then the right paths in neither.
pub open spec fn all_paths(
    base: Seq<(Seq<char>, FileEntryModel)>,
    left: Seq<(Seq<char>, FileEntryModel)>,
    right: Seq<(Seq<char>, FileEntryModel)>,
) -> Seq<Seq<char>> {
    paths_of(base) + new_paths(left, base, Seq::empty()) + new_paths(right, base, left)
}

/// `other` differs from `base` in size or modification time.
pub open spec fn modified_from(base: FileEntryModel, other: FileEntryModel) -> bool {
    base.size != other.size || base.modified != other.modified
}

/// `left` and `right` have the same size and modification time.
pub open spec fn same_content(left: FileEntryModel, right: FileEntryModel) -> bool {
    left.size == right.size && left.modified == right.modified
}

/// A result with no conflict.
pub open spec fn resolved(path: Seq<char>, r: MergeResolution, s: MergeSource) -> MergeResultModel {
    MergeResultModel { path, resolution: r, conflict: None, resolved_source: Some(s) }
}

/// A result that needs a manual decision.
pub open spec fn conflicted(
    path: Seq<char>,
    t: ConflictType,
    b: Option<FileEntryModel>,
    l: Option<FileEntryModel>,
    r: Option<FileEntryModel>,
) -> MergeResultModel {
    MergeResultModel {
        path,
        resolution: MergeResolution::ManualRequired,
        conflict: Some(ConflictModel { path, conflict_type: t, base: b, left: l, right: r }),
        resolved_source: None,
    }
}

/// `choice` when resolving automatically, else a plain automatic merge.
pub open spec fn auto_choice(auto: bool, choice: MergeResolution) -> MergeResolution {
    if auto {
        choice
    } else {
        MergeResolution::AutoMerged
    }
}

/// The merge of a path present in all three trees. A file/directory
/// mismatch is a type conflict; directories merge; an unchanged file keeps
/// the base; a file changed on one side takes that side; a file changed on
/// both sides to the same size and time merges, otherwise conflicts.
pub open spec fn merge_all_exist(
    auto: bool,
    path: Seq<char>,
    b: FileEntryModel,
    l: FileEntryModel,
    r: FileEntryModel,
) -> MergeResultModel {
    if b.is_dir != l.is_dir || b.is_dir != r.is_dir {
        conflicted(path, ConflictType::TypeConflict, Some(b), Some(l), Some(r))
    } else if b.is_dir {
        resolved(path, MergeResolution::AutoMerged, MergeSource::Merged)
    } else {
        let lm = modified_from(b, l);
        let rm = modified_from(b, r);
        if !lm && !rm {
            resolved(path, MergeResolution::UseBase, MergeSource::Base)
        } else if lm && !rm {
            resolved(path, auto_choice(auto, MergeResolution::UseLeft), MergeSource::Left)
        } else if !lm && rm {
            resolved(path, auto_choice(auto, MergeResolution::UseRight), MergeSource::Right)
        } else if same_content(l, r) {
            resolved(path, MergeResolution::AutoMerged, MergeSource::Left)
        } else {
            conflicted(path, ConflictType::BothModified, Some(b), Some(l), Some(r))
        }
    }
}

/// The merge of a path added on both sides.
pub open spec fn merge_both_added(path: Seq<char>, l: FileEntryModel, r: FileEntryModel) -> MergeResultModel {
    if l.is_dir != r.is_dir {
        conflicted(path, ConflictType::TypeConflict, None, Some(l), Some(r))
    } else if same_content(l, r) {
        resolved(path, MergeResolution::AutoMerged, MergeSource::Left)
    } else {
        conflicted(path, ConflictType::BothAdded, None, Some(l), Some(r))
    }
}

/// The merge of a path kept (as `m`) on one side and deleted on the other:
/// the deletion wins when `m` is unchanged, else it is a conflict.
pub open spec fn merge_modify_delete(
    auto: bool,
    path: Seq<char>,
    b: FileEntryModel,
    m: FileEntryModel,
    left_kept: bool,
) -> MergeResultModel {
    if !modified_from(b, m) {
        resolved(
            path,
            auto_choice(
                auto,
                if left_kept {
                    MergeResolution::UseRight
                } else {
                    MergeResolution::UseLeft
                },
            ),
            MergeSource::Base,
        )
    } else {
        conflicted(
            path,
            ConflictType::ModifyDelete,
            Some(b),
            if left_kept {
                Some(m)
            } else {
                None
            },
            if left_kept {
                None
            } else {
                Some(m)
            },
        )
    }
}

/// The merge of one path from its entries on the three sides; `None` when
/// it is on no side.
pub open spec fn merge_path(
    auto: bool,
    path: Seq<char>,
    b: Option<FileEntryModel>,
    l: Option<FileEntryModel>,
    r: Option<FileEntryModel>,
) -> Option<MergeResultModel> {
    match (b, l, r) {
        (Some(b), Some(l), Some(r)) => Some(merge_all_exist(auto, path, b, l, r)),
        (None, Some(l), Some(r)) => Some(merge_both_added(path, l, r)),
        (Some(b), Some(l), None) => Some(merge_modify_delete(auto, path, b, l, true)),
        (Some(b), None, Some(r)) => Some(merge_modify_delete(auto, path, b, r, false)),
        (Some(_), None, None) => Some(resolved(path, MergeResolution::UseBase, MergeSource::Base)),
        (None, Some(_), None) => Some(resolved(path, MergeResolution::UseLeft, MergeSource::Left)),
        (None, None, Some(_)) => Some(resolved(path, MergeResolution::UseRight, MergeSource::Right)),
        (None, None, None) => None,
    }
}

/// The resolution with left and right exchanged.
pub open spec fn mirrored(r: MergeResolution) -> MergeResolution {
    match r {
        MergeResolution::UseLeft => MergeResolution::UseRight,
        MergeResolution::UseRight => MergeResolution::UseLeft,
        _ => r,
    }
}

/// A merge result carries a conflict exactly when it needs a manual
/// decision, and names a resolved source exactly when it does not.
pub proof fn lemma_conflict_iff_manual(
    auto: bool,
    path: Seq<char>,
    b: Option<FileEntryModel>,
    l: Option<FileEntryModel>,
    r: Option<FileEntryModel>,
)
    requires
        b is Some || l is Some || r is Some,
    ensures
        merge_path(auto, path, b, l, r) is Some,
        (merge_path(auto, path, b, l, r).unwrap().conflict is Some) <==> (merge_path(
            auto,
            path,
            b,
            l,
            r,
        ).unwrap().resolution == MergeResolution::ManualRequired),
        (merge_path(auto, path, b, l, r).unwrap().resolved_source is None) <==> (merge_path(
            auto,
            path,
            b,
            l,
            r,
        ).unwrap().resolution == MergeResolution::ManualRequired),
{
}

/// Exchanging the left and right trees exchanges "use left" and "use right"
/// and leaves every other resolution as it is.
pub proof fn lemma_merge_mirror(
    auto: bool,
    path: Seq<char>,
    b: Option<FileEntryModel>,
    l: Option<FileEntryModel>,
    r: Option<FileEntryModel>,
)
    requires
        b is Some || l is Some || r is Some,
    ensures
        merge_path(auto, path, b, l, r).unwrap().resolution == mirrored(
            merge_path(auto, path, b, r, l).unwrap().resolution,
        ),
{
}

/// When neither side changed a file of the base, the merge keeps the base
/// without conflict.
pub proof fn lemma_unchanged_keeps_base(auto: bool, path: Seq<char>, b: FileEntryModel)
    ensures
        merge_path(auto, path, Some(b), Some(b), Some(b)) == Some(
            if b.is_dir {
                resolved(path, MergeResolution::AutoMerged, MergeSource::Merged)
            } else {
                resolved(path, MergeResolution::UseBase, MergeSource::Base)
            },
        ),
{
}

/// Engine for three-way merge operations.
pub struct MergeEngine {
    /// Whether to resolve one-sided changes to that side automatically.
    pub auto_resolve: bool,
}

/// The entry of `path` in the tree, looked up from the end.
fn find_entry<'a>(t: &'a Vec<(String, FileEntry)>, path: &str) -> (res: Option<&'a FileEntry>)
    ensures
        match res {
            Some(e) => lookup(tree_view(t@), path@) == Some(e@),
            None => lookup(tree_view(t@), path@) is None,
        },
{
    let ghost m = tree_view(t@);
    let mut k = t.len();
    assert(m.take(k as int) =~= m);
    while k > 0
        invariant
            k <= t@.len(),
            m == tree_view(t@),
            lookup(m, path@) == lookup(m.take(k as int), path@),
        decreases k,
    {
        let ghost mk = m.take(k as int);
        assert(mk.last() == (t@[k - 1].0@, t@[k - 1].1@));
        assert(mk.drop_last() =~= m.take(k - 1));
        if same_text(t[k - 1].0.as_str(), path) {
            return Some(&t[k - 1].1);
        }
        k -= 1;
    }
    assert(m.take(0) =~= Seq::<(Seq<char>, FileEntryModel)>::empty());
    None
}

/// A copy of a path string.
fn copy_path(path: &String) -> (res: String)
    ensures
        res@ == path@,
{
    string_from_chars(chars_of(path.as_str()).as_slice())
}

impl MergeEngine {
    /// A merge engine that resolves one-sided changes automatically.
    pub fn new() -> (res: Self)
        ensures
            res.auto_resolve,
    {
        MergeEngine { auto_resolve: true }
    }

    /// A merge engine with automatic resolution disabled.
    pub fn without_auto_resolve() -> (res: Self)
        ensures
            !res.auto_resolve,
    {
        MergeEngine { auto_resolve: false }
    }

    /// Merge the base, left and right trees: one result for every path of
    /// any of them (base paths first, then new left paths, then new right
    /// paths).
    pub fn merge(
        &self,
        base: &Vec<(String, FileEntry)>,
        left: &Vec<(String, FileEntry)>,
        right: &Vec<(String, FileEntry)>,
    ) -> (res: Result<Vec<MergeResult>, RCompareError>)
        requires
            distinct_paths(tree_view(base@)),
            distinct_paths(tree_view(left@)),
            distinct_paths(tree_view(right@)),
        ensures
            res matches Ok(v) && v@.len() == all_paths(tree_view(base@), tree_view(left@), tree_view(right@)).len()
                && forall|k: int| 0 <= k < v@.len() ==> Some(#[trigger] v@[k]@) == merge_path(
                self.auto_resolve,
                all_paths(tree_view(base@), tree_view(left@), tree_view(right@))[k],
                lookup(tree_view(base@), all_paths(tree_view(base@), tree_view(left@), tree_view(right@))[k]),
                lookup(tree_view(left@), all_paths(tree_view(base@), tree_view(left@), tree_view(right@))[k]),
                lookup(tree_view(right@), all_paths(tree_view(base@), tree_view(left@), tree_view(right@))[k]),
            ),
    {
        let ghost (bm, lm, rm) = (tree_view(base@), tree_view(left@), tree_view(right@));
        let ghost empty = Seq::<(Seq<char>, FileEntryModel)>::empty();
        let mut results: Vec<MergeResult> = Vec::new();
        let ghost mut order: Seq<Seq<char>> = Seq::empty();
        let nb = base.len();
        for k in 0..nb
            invariant
                nb == base@.len(),
                bm == tree_view(base@),
                lm == tree_view(left@),
                rm == tree_view(right@),
                distinct_paths(bm),
                distinct_paths(lm),
                distinct_paths(rm),
                order == paths_of(bm).take(k as int),
                results@.len() == order.len(),
                forall|j: int| 0 <= j < results@.len() ==> Some(#[trigger] results@[j]@) == merge_path(
                    self.auto_resolve,
                    order[j],
                    lookup(bm, order[j]),
                    lookup(lm, order[j]),
                    lookup(rm, order[j]),
                ),
        {
            let path = &base[k].0;
            proof {
                assert(bm[k as int].0 == path@);
                lemma_lookup_present(bm, k as int);
            }
            let r = self.merge_one(path, base, left, right);
            proof {
                order = order.push(path@);
                assert(order =~= paths_of(bm).take(k + 1));
            }
            results.push(r);
        }
        assert(paths_of(bm).take(nb as int) =~= paths_of(bm));
        let ghost o1 = order;
        let nl = left.len();
        for k in 0..nl
            invariant
                nl == left@.len(),
                bm == tree_view(base@),
                lm == tree_view(left@),
                rm == tree_view(right@),
                distinct_paths(bm),
                distinct_paths(lm),
                distinct_paths(rm),
                empty == Seq::<(Seq<char>, FileEntryModel)>::empty(),
                order == o1 + paths_of(lm).take(k as int).filter(
                    |p: Seq<char>| lookup(bm, p) is None && lookup(empty, p) is None,
                ),
                results@.len() == order.len(),
                forall|j: int| 0 <= j < results@.len() ==> Some(#[trigger] results@[j]@) == merge_path(
                    self.auto_resolve,
                    order[j],
                    lookup(bm, order[j]),
                    lookup(lm, order[j]),
                    lookup(rm, order[j]),
                ),
        {
            let path = &left[k].0;
            proof {
                reveal(Seq::filter);
                assert(paths_of(lm).take(k + 1).drop_last() =~= paths_of(lm).take(k as int));
            }
            if find_entry(base, path.as_str()).is_none() {
                proof {
                    assert(lm[k as int].0 == path@);
                    lemma_lookup_present(lm, k as int);
                }
                let r = self.merge_one(path, base, left, right);
                proof {
                    order = order.push(path@);
                }
                results.push(r);
            }
        }
        assert(paths_of(lm).take(nl as int) =~= paths_of(lm));
        let ghost o2 = order;
        let nr = right.len();
        for k in 0..nr
            invariant
                nr == right@.len(),
                bm == tree_view(base@),
                lm == tree_view(left@),
                rm == tree_view(right@),
                distinct_paths(bm),
                distinct_paths(lm),
                distinct_paths(rm),
                order == o2 + paths_of(rm).take(k as int).filter(
                    |p: Seq<char>| lookup(bm, p) is None && lookup(lm, p) is None,
                ),
                results@.len() == order.len(),
                forall|j: int| 0 <= j < results@.len() ==> Some(#[trigger] results@[j]@) == merge_path(
                    self.auto_resolve,
                    order[j],
                    lookup(bm, order[j]),
                    lookup(lm, order[j]),
                    lookup(rm, order[j]),
                ),
        {
            let path = &right[k].0;
            proof {
                reveal(Seq::filter);
                assert(paths_of(rm).take(k + 1).drop_last() =~= paths_of(rm).take(k as int));
            }
            if find_entry(base, path.as_str()).is_none() && find_entry(left, path.as_str()).is_none() {
                proof {
                    assert(rm[k as int].0 == path@);
                    lemma_lookup_present(rm, k as int);
                }
                let r = self.merge_one(path, base, left, right);
                proof {
                    order = order.push(path@);
                }
                results.push(r);
            }
        }
        assert(paths_of(rm).take(nr as int) =~= paths_of(rm));
        assert(order =~= all_paths(bm, lm, rm));
        Ok(results)
    }

    /// The merge of one path that is in at least one of the trees.
    fn merge_one(
        &self,
        path: &String,
        base: &Vec<(String, FileEntry)>,
        left: &Vec<(String, FileEntry)>,
        right: &Vec<(String, FileEntry)>,
    ) -> (res: MergeResult)
        requires
            lookup(tree_view(base@), path@) is Some || lookup(tree_view(left@), path@) is Some
                || lookup(tree_view(right@), path@) is Some,
        ensures
            Some(res@) == merge_path(
                self.auto_resolve,
                path@,
                lookup(tree_view(base@), path@),
                lookup(tree_view(left@), path@),
                lookup(tree_view(right@), path@),
            ),
    {
        let b = find_entry(base, path.as_str());
        let l = find_entry(left, path.as_str());
        let r = find_entry(right, path.as_str());
        match self.merge_entry(path, b, l, r) {
            Ok(m) => m,
            Err(_) => {
                assert(false);
                MergeResult {
                    path: copy_path(path),
                    resolution: MergeResolution::UseBase,
                    conflict: None,
                    resolved_source: None,
                }
            },
        }
    }

    /// Merge a single path from its entries on the three sides; an error
    /// when it is on none of them.
    fn merge_entry(
        &self,
        path: &String,
        base: Option<&FileEntry>,
        left: Option<&FileEntry>,
        right: Option<&FileEntry>,
    ) -> (res: Result<MergeResult, RCompareError>)
        ensures
            match res {
                Ok(m) => merge_path(
                    self.auto_resolve,
                    path@,
                    opt_ref_view(base),
                    opt_ref_view(left),
                    opt_ref_view(right),
                ) == Some(m@),
                Err(_) => base is None && left is None && right is None,
            },
    {
        match (base, left, right) {
            (Some(b), Some(l), Some(r)) => Ok(self.merge_all_exist(path, b, l, r)),
            (None, Some(l), Some(r)) => Ok(self.merge_both_added(path, l, r)),
            (Some(b), Some(l), None) => Ok(self.merge_modify_delete(path, b, l, true)),
            (Some(b), None, Some(r)) => Ok(self.merge_modify_delete(path, b, r, false)),
            (Some(_), None, None) => Ok(
                MergeResult {
                    path: copy_path(path),
                    resolution: MergeResolution::UseBase,
                    conflict: None,
                    resolved_source: Some(MergeSource::Base),
                },
            ),
            (None, Some(_), None) => Ok(
                MergeResult {
                    path: copy_path(path),
                    resolution: MergeResolution::UseLeft,
                    conflict: None,
                    resolved_source: Some(MergeSource::Left),
                },
            ),
            (None, None, Some(_)) => Ok(
                MergeResult {
                    path: copy_path(path),
                    resolution: MergeResolution::UseRight,
                    conflict: None,
                    resolved_source: Some(MergeSource::Right),
                },
            ),
            (None, None, None) => {
                let mut m = string_from_chars(chars_of("No entries found for path: ").as_slice());
                crate::text::push_str(&mut m, path.as_str());
                Err(RCompareError::Path(m))
            },
        }
    }

    fn merge_all_exist(&self, path: &String, base: &FileEntry, left: &FileEntry, right: &FileEntry) -> (res: MergeResult)
        ensures
            res@ == merge_all_exist(self.auto_resolve, path@, base@, left@, right@),
    {
        if base.is_dir != left.is_dir || base.is_dir != right.is_dir {
            return self.conflict(path, ConflictType::TypeConflict, Some(base), Some(left), Some(right));
        }
        if base.is_dir {
            return Self::resolution(path, MergeResolution::AutoMerged, MergeSource::Merged);
        }
        let left_modified = self.is_modified(base, left);
        let right_modified = self.is_modified(base, right);
        if !left_modified && !right_modified {
            Self::resolution(path, MergeResolution::UseBase, MergeSource::Base)
        } else if left_modified && !right_modified {
            let r = if self.auto_resolve {
                MergeResolution::UseLeft
            } else {
                MergeResolution::AutoMerged
            };
            Self::resolution(path, r, MergeSource::Left)
        } else if !left_modified && right_modified {
            let r = if self.auto_resolve {
                MergeResolution::UseRight
            } else {
                MergeResolution::AutoMerged
            };
            Self::resolution(path, r, MergeSource::Right)
        } else if self.is_same_content(left, right) {
            Self::resolution(path, MergeResolution::AutoMerged, MergeSource::Left)
        } else {
            self.conflict(path, ConflictType::BothModified, Some(base), Some(left), Some(right))
        }
    }

    fn merge_both_added(&self, path: &String, left: &FileEntry, right: &FileEntry) -> (res: MergeResult)
        ensures
            res@ == merge_both_added(path@, left@, right@),
    {
        if left.is_dir != right.is_dir {
            return self.conflict(path, ConflictType::TypeConflict, None, Some(left), Some(right));
        }
        if self.is_same_content(left, right) {
            Self::resolution(path, MergeResolution::AutoMerged, MergeSource::Left)
        } else {
            self.conflict(path, ConflictType::BothAdded, None, Some(left), Some(right))
        }
    }

    fn merge_modify_delete(
        &self,
        path: &String,
        base: &FileEntry,
        modified: &FileEntry,
        is_left_modified: bool,
    ) -> (res: MergeResult)
        ensures
            res@ == merge_modify_delete(self.auto_resolve, path@, base@, modified@, is_left_modified),
    {
        if !self.is_modified(base, modified) {
            let r = if self.auto_resolve {
                if is_left_modified {
                    MergeResolution::UseRight
                } else {
                    MergeResolution::UseLeft
                }
            } else {
                MergeResolution::AutoMerged
            };
            Self::resolution(path, r, MergeSource::Base)
        } else if is_left_modified {
            self.conflict(path, ConflictType::ModifyDelete, Some(base), Some(modified), None)
        } else {
            self.conflict(path, ConflictType::ModifyDelete, Some(base), None, Some(modified))
        }
    }

    /// A result resolved to `source` without conflict.
    fn resolution(path: &String, resolution: MergeResolution, source: MergeSource) -> (res: MergeResult)
        ensures
            res@ == resolved(path@, resolution, source),
    {
        MergeResult { path: copy_path(path), resolution, conflict: None, resolved_source: Some(source) }
    }

    /// A result that needs a manual decision.
    fn conflict(
        &self,
        path: &String,
        conflict_type: ConflictType,
        base: Option<&FileEntry>,
        left: Option<&FileEntry>,
        right: Option<&FileEntry>,
    ) -> (res: MergeResult)
        ensures
            res@ == conflicted(path@, conflict_type, opt_ref_view(base), opt_ref_view(left), opt_ref_view(right)),
    {
        let b = copy_opt(base);
        let l = copy_opt(left);
        let r = copy_opt(right);
        MergeResult {
            path: copy_path(path),
            resolution: MergeResolution::ManualRequired,
            conflict: Some(MergeConflict { path: copy_path(path), conflict_type, base: b, left: l, right: r }),
            resolved_source: None,
        }
    }

    /// Whether `other` was modified compared to `base`: a different size or
    /// modification time.
    fn is_modified(&self, base: &FileEntry, other: &FileEntry) -> (res: bool)
        ensures
            res == modified_from(base@, other@),
    {
        if base.size != other.size {
            return true;
        }
        if base.modified != other.modified {
            return true;
        }
        false
    }

    /// Whether two entries are taken to hold the same content: the same size
    /// and modification time.
    fn is_same_content(&self, left: &FileEntry, right: &FileEntry) -> (res: bool)
        ensures
            res == same_content(left@, right@),
    {
        if left.size != right.size {
            return false;
        }
        left.modified == right.modified
    }
}

impl Default for MergeEngine {
    fn default() -> (res: Self)
        ensures
            res.auto_resolve,
    {
        Self::new()
    }
}

/// The model of an optional borrowed entry.
pub open spec fn opt_ref_view(e: Option<&FileEntry>) -> Option<FileEntryModel> {
    match e {
        Some(x) => Some(x@),
        None => None,
    }
}

/// An owned copy of an optional borrowed entry.
fn copy_opt(e: Option<&FileEntry>) -> (res: Option<FileEntry>)
    ensures
        opt_entry_view(res) == opt_ref_view(e),
{
    match e {
        Some(x) => Some(x.duplicate()),
        None => None,
    }
}

/// The entry at position `k` of a tree with distinct paths is what its path
/// looks up.
proof fn lemma_lookup_present(t: Seq<(Seq<char>, FileEntryModel)>, k: int)
    requires
        0 <= k < t.len(),
        distinct_paths(t),
    ensures
        lookup(t, t[k].0) == Some(t[k].1),
        paths_of(t)[k] == t[k].0,
    decreases t.len(),
{
    if k < t.len() - 1 {
        assert(t.last().0 != t[k].0);
        let d = t.drop_last();
        assert(d[k] == t[k]);
        assert forall|i: int, j: int| 0 <= i < j < d.len() implies #[trigger] d[i].0 != #[trigger] d[j].0 by {
            assert(t[i].0 != t[j].0);
        }
        lemma_lookup_present(d, k);
    }
}


/// Turning automatic resolution off changes only how a resolution is
/// named: conflicts and resolved sources stay the same, and a path of the
/// base that one side kept and that automatic resolution gives to the left
/// or the right side is merged automatically instead.
pub proof fn lemma_without_auto_resolve(
    path: Seq<char>,
    b: Option<FileEntryModel>,
    l: Option<FileEntryModel>,
    r: Option<FileEntryModel>,
)
    ensures
        match (merge_path(true, path, b, l, r), merge_path(false, path, b, l, r)) {
            (Some(a), Some(m)) => {
                &&& m.path == a.path
                &&& m.conflict == a.conflict
                &&& m.resolved_source == a.resolved_source
                &&& m.resolution == if b is Some && (l is Some || r is Some) && (a.resolution
                    == MergeResolution::UseLeft || a.resolution == MergeResolution::UseRight) {
                    MergeResolution::AutoMerged
                } else {
                    a.resolution
                }
            },
            (None, None) => true,
            _ => false,
        },
{
}

/// A file of the base changed on one side only, and still a file on both
/// sides, merges without conflict from the changed side.
pub proof fn lemma_one_sided_change(
    auto: bool,
    path: Seq<char>,
    b: FileEntryModel,
    l: FileEntryModel,
    r: FileEntryModel,
)
    requires
        !b.is_dir && !l.is_dir && !r.is_dir,
        modified_from(b, l) != modified_from(b, r),
    ensures
        modified_from(b, l) ==> merge_path(auto, path, Some(b), Some(l), Some(r)) == Some(
            resolved(path, auto_choice(auto, MergeResolution::UseLeft), MergeSource::Left),
        ),
        modified_from(b, r) ==> merge_path(auto, path, Some(b), Some(l), Some(r)) == Some(
            resolved(path, auto_choice(auto, MergeResolution::UseRight), MergeSource::Right),
        ),
{
}


/// A base file that one side keeps unchanged and the other side deletes
/// is deleted: automatic resolution takes the side where the file is
/// absent, without conflict, from the base. A kept copy that was changed
/// instead conflicts with the deletion, holding the base and the kept copy.
pub proof fn lemma_deletion_of_unchanged_file(auto: bool, path: Seq<char>, b: FileEntryModel, m: FileEntryModel)
    ensures
        !modified_from(b, m) ==> {
            &&& merge_path(true, path, Some(b), Some(m), None) matches Some(x) && x.path == path
                && x.resolution == MergeResolution::UseRight && x.conflict is None
                && x.resolved_source == Some(MergeSource::Base)
            &&& merge_path(true, path, Some(b), None, Some(m)) matches Some(x) && x.path == path
                && x.resolution == MergeResolution::UseLeft && x.conflict is None
                && x.resolved_source == Some(MergeSource::Base)
        },
        modified_from(b, m) ==> {
            &&& merge_path(auto, path, Some(b), Some(m), None) matches Some(x)
                && x.resolution == MergeResolution::ManualRequired && x.resolved_source is None
                && (x.conflict matches Some(cf) && cf.conflict_type == ConflictType::ModifyDelete
                && cf.base == Some(b) && cf.left == Some(m) && cf.right is None)
            &&& merge_path(auto, path, Some(b), None, Some(m)) matches Some(x)
                && x.resolution == MergeResolution::ManualRequired && x.resolved_source is None
                && (x.conflict matches Some(cf) && cf.conflict_type == ConflictType::ModifyDelete
                && cf.base == Some(b) && cf.left is None && cf.right == Some(m))
        },
{
}


/// How a path present in all three trees as files merges: unchanged on
/// both sides it keeps the base; changed on both sides to the same size and
/// time it merges automatically from the left; changed on both sides
/// differently it is a both-modified conflict holding all three entries. A
/// file turned into a directory (or back) on some side is a type conflict.
pub proof fn lemma_merge_all_present(auto: bool, path: Seq<char>, b: FileEntryModel, l: FileEntryModel, r: FileEntryModel)
    ensures
        (b.is_dir != l.is_dir || b.is_dir != r.is_dir) ==> (merge_path(auto, path, Some(b), Some(l), Some(r)) matches Some(x)
            && x.resolution == MergeResolution::ManualRequired && (x.conflict matches Some(cf) && cf.conflict_type
            == ConflictType::TypeConflict)),
        !b.is_dir && !l.is_dir && !r.is_dir ==> {
            &&& !modified_from(b, l) && !modified_from(b, r) ==> (merge_path(auto, path, Some(b), Some(l), Some(r)) matches Some(x)
                && x.resolution == MergeResolution::UseBase && x.conflict is None && x.resolved_source == Some(MergeSource::Base))
            &&& modified_from(b, l) && modified_from(b, r) && same_content(l, r) ==> (merge_path(auto, path, Some(b), Some(l), Some(r))
                matches Some(x) && x.resolution == MergeResolution::AutoMerged && x.conflict is None
                && x.resolved_source == Some(MergeSource::Left))
            &&& modified_from(b, l) && modified_from(b, r) && !same_content(l, r) ==> (merge_path(auto, path, Some(b), Some(l), Some(r))
                matches Some(x) && x.resolution == MergeResolution::ManualRequired && x.resolved_source is None
                && (x.conflict matches Some(cf) && cf.conflict_type == ConflictType::BothModified && cf.base == Some(b)
                && cf.left == Some(l) && cf.right == Some(r)))
        },
{
}

/// A path that only one tree has is taken from that tree; one that both
/// sides added with the same size and time merges automatically, and one
/// they added differently is a both-added conflict.
pub proof fn lemma_merge_added(auto: bool, path: Seq<char>, e: FileEntryModel, l: FileEntryModel, r: FileEntryModel)
    ensures
        merge_path(auto, path, None, Some(e), None) matches Some(x) && x.resolution == MergeResolution::UseLeft
            && x.resolved_source == Some(MergeSource::Left) && x.conflict is None,
        merge_path(auto, path, None, None, Some(e)) matches Some(x) && x.resolution == MergeResolution::UseRight
            && x.resolved_source == Some(MergeSource::Right) && x.conflict is None,
        l.is_dir == r.is_dir && same_content(l, r) ==> (merge_path(auto, path, None, Some(l), Some(r)) matches Some(x)
            && x.resolution == MergeResolution::AutoMerged && x.conflict is None),
        l.is_dir == r.is_dir && !same_content(l, r) ==> (merge_path(auto, path, None, Some(l), Some(r)) matches Some(x)
            && x.resolution == MergeResolution::ManualRequired && (x.conflict matches Some(cf) && cf.conflict_type
            == ConflictType::BothAdded)),
{
}

} // verus!
