//! Planning a synchronisation of two directories from their comparison:
//! which path to copy, update, delete or skip, in path order.

use crate::paths::{compare_keys, components, components_less, key_view, Component, PathKey, PathOrder};
use crate::text::{chars_of, push_str, same_text, string_from_chars};
use crate::types::{DiffNode, DiffStatus};
use vstd::prelude::*;

verus! {

/// Which way a synchronisation copies.
#[derive(Debug, Clone, Copy, PartialEq, Eq, Structural)]
pub enum SyncDirection {
    LeftToRight,
    RightToLeft,
    Bidirectional,
}

/// What a bidirectional synchronisation does with files that differ.
#[derive(Debug, Clone, Copy, PartialEq, Eq, Structural)]
pub enum ConflictPolicy {
    Newest,
    Left,
    Right,
    Skip,
    Error,
}

pub const DIR_LEFT_TO_RIGHT: &'static str = "left_to_right";
pub const DIR_RIGHT_TO_LEFT: &'static str = "right_to_left";
pub const DIR_BIDIRECTIONAL: &'static str = "bidirectional";
pub const POLICY_NEWEST: &'static str = "newest";
pub const POLICY_LEFT: &'static str = "left";
pub const POLICY_RIGHT: &'static str = "right";
pub const POLICY_SKIP: &'static str = "skip";
pub const POLICY_ERROR: &'static str = "error";

/// Message for an unknown direction.
pub const BAD_DIRECTION: &'static str = "invalid --direction. Use: left_to_right, right_to_left, bidirectional";

/// Message for an unknown conflict policy.
pub const BAD_POLICY: &'static str = "invalid --conflict. Use: newest, left, right, skip, error";

pub const CODE_SKIP: &'static str = "SKIP";
pub const CODE_COPY_LR: &'static str = "COPY_LR";
pub const CODE_COPY_RL: &'static str = "COPY_RL";
pub const CODE_DELETE_L: &'static str = "DELETE_L";
pub const CODE_DELETE_R: &'static str = "DELETE_R";
pub const CODE_UPDATE_L: &'static str = "UPDATE_L";
pub const CODE_UPDATE_R: &'static str = "UPDATE_R";

pub const DETAIL_UNCHECKED: &'static str = "Unchecked item; manual review required";
pub const DETAIL_CREATE_RIGHT: &'static str = "Create on right";
pub const DETAIL_DELETE_RIGHT: &'static str = "Delete from right";
pub const DETAIL_OVERWRITE_RIGHT: &'static str = "Overwrite right from left";
pub const DETAIL_CREATE_LEFT: &'static str = "Create on left";
pub const DETAIL_DELETE_LEFT: &'static str = "Delete from left";
pub const DETAIL_OVERWRITE_LEFT: &'static str = "Overwrite left from right";
pub const DETAIL_MISSING_RIGHT: &'static str = "Missing on right";
pub const DETAIL_MISSING_LEFT: &'static str = "Missing on left";
pub const DETAIL_POLICY_LEFT: &'static str = "Conflict policy=left";
pub const DETAIL_POLICY_RIGHT: &'static str = "Conflict policy=right";
pub const DETAIL_POLICY_SKIP: &'static str = "Conflict policy=skip";
pub const DETAIL_LEFT_NEWER: &'static str = "Left newer";
pub const DETAIL_RIGHT_NEWER: &'static str = "Right newer";
pub const DETAIL_UNKNOWN_NEWER: &'static str = "Cannot determine newer side";

/// Opening of the message for a conflict under the error policy.
pub const CONFLICT_OPEN: &'static str = "conflict encountered for ";

/// Closing of the message for a conflict under the error policy.
pub const CONFLICT_CLOSE: &'static str = " and policy=error";

/// One planned action: its code, the path, and why.
#[derive(Debug, Clone)]
pub struct SyncActionReport {
    pub code: String,
    pub path: String,
    pub detail: String,
}

/// The direction a name stands for.
pub open spec fn direction_named(s: Seq<char>) -> Option<SyncDirection> {
    if s == DIR_LEFT_TO_RIGHT@ {
        Some(SyncDirection::LeftToRight)
    } else if s == DIR_RIGHT_TO_LEFT@ {
        Some(SyncDirection::RightToLeft)
    } else if s == DIR_BIDIRECTIONAL@ {
        Some(SyncDirection::Bidirectional)
    } else {
        None
    }
}

/// The conflict policy a name stands for.
pub open spec fn policy_named(s: Seq<char>) -> Option<ConflictPolicy> {
    if s == POLICY_NEWEST@ {
        Some(ConflictPolicy::Newest)
    } else if s == POLICY_LEFT@ {
        Some(ConflictPolicy::Left)
    } else if s == POLICY_RIGHT@ {
        Some(ConflictPolicy::Right)
    } else if s == POLICY_SKIP@ {
        Some(ConflictPolicy::Skip)
    } else if s == POLICY_ERROR@ {
        Some(ConflictPolicy::Error)
    } else {
        None
    }
}

/// The action planned for a node with status `st` and modification times
/// `lm`, `rm` of its sides: `None` for no action, `Some(Err(()))` for a
/// conflict under the error policy, else the code and detail.
#[verifier::opaque]
pub open spec fn action_for(
    dir: SyncDirection,
    policy: ConflictPolicy,
    st: DiffStatus,
    lm: Option<i128>,
    rm: Option<i128>,
) -> Option<Result<(Seq<char>, Seq<char>), ()>> {
    if st == DiffStatus::Same {
        None
    } else if st == DiffStatus::Unchecked {
        Some(Ok((CODE_SKIP@, DETAIL_UNCHECKED@)))
    } else {
        match dir {
            SyncDirection::LeftToRight => match st {
                DiffStatus::OrphanLeft => Some(Ok((CODE_COPY_LR@, DETAIL_CREATE_RIGHT@))),
                DiffStatus::OrphanRight => Some(Ok((CODE_DELETE_R@, DETAIL_DELETE_RIGHT@))),
                _ => Some(Ok((CODE_UPDATE_R@, DETAIL_OVERWRITE_RIGHT@))),
            },
            SyncDirection::RightToLeft => match st {
                DiffStatus::OrphanRight => Some(Ok((CODE_COPY_RL@, DETAIL_CREATE_LEFT@))),
                DiffStatus::OrphanLeft => Some(Ok((CODE_DELETE_L@, DETAIL_DELETE_LEFT@))),
                _ => Some(Ok((CODE_UPDATE_L@, DETAIL_OVERWRITE_LEFT@))),
            },
            SyncDirection::Bidirectional => match st {
                DiffStatus::OrphanLeft => Some(Ok((CODE_COPY_LR@, DETAIL_MISSING_RIGHT@))),
                DiffStatus::OrphanRight => Some(Ok((CODE_COPY_RL@, DETAIL_MISSING_LEFT@))),
                _ => match policy {
                    ConflictPolicy::Left => Some(Ok((CODE_COPY_LR@, DETAIL_POLICY_LEFT@))),
                    ConflictPolicy::Right => Some(Ok((CODE_COPY_RL@, DETAIL_POLICY_RIGHT@))),
                    ConflictPolicy::Skip => Some(Ok((CODE_SKIP@, DETAIL_POLICY_SKIP@))),
                    ConflictPolicy::Error => Some(Err(())),
                    ConflictPolicy::Newest => match (lm, rm) {
                        (Some(l), Some(r)) => if l > r {
                            Some(Ok((CODE_COPY_LR@, DETAIL_LEFT_NEWER@)))
                        } else if r > l {
                            Some(Ok((CODE_COPY_RL@, DETAIL_RIGHT_NEWER@)))
                        } else {
                            Some(Ok((CODE_SKIP@, DETAIL_UNKNOWN_NEWER@)))
                        },
                        _ => Some(Ok((CODE_SKIP@, DETAIL_UNKNOWN_NEWER@))),
                    },
                },
            },
        }
    }
}

/// The modification time of an optional entry.
pub open spec fn modified_of(e: Option<crate::types::FileEntry>) -> Option<i128> {
    match e {
        Some(x) => Some(x.modified),
        None => None,
    }
}

/// The action planned for node `n`.
pub open spec fn node_action(dir: SyncDirection, policy: ConflictPolicy, n: DiffNode) -> Option<Result<(Seq<char>, Seq<char>), ()>> {
    action_for(dir, policy, n.status, modified_of(n.left), modified_of(n.right))
}

/// `order` lists the node indices `0..n` once each, sorted by path and,
/// among equal paths, by index.
pub open spec fn stable_path_order(nodes: Seq<DiffNode>, order: Seq<usize>) -> bool {
    &&& order.len() == nodes.len()
    &&& forall|t: int| 0 <= t < order.len() ==> (#[trigger] order[t]) < nodes.len()
    &&& forall|t: int, u: int| 0 <= t < u < order.len() ==> #[trigger] order[t] != #[trigger] order[u]
    &&& forall|t: int| 0 <= t < order.len() - 1 ==> #[trigger] ordered_at(nodes, order, t)
}

/// Positions `t` and `t + 1` of `order` are in path order, and in index
/// order when their paths are equal.
pub open spec fn ordered_at(nodes: Seq<DiffNode>, order: Seq<usize>, t: int) -> bool {
    let a = nodes[order[t] as int].relative_path@;
    let b = nodes[order[t + 1] as int].relative_path@;
    ||| components_less(components(a), components(b))
    ||| (components(a) == components(b) && order[t] < order[t + 1])
}

/// The actions of the nodes taken in `order`, up to the first conflict
/// under the error policy (then the path of that node).
pub open spec fn planned(
    dir: SyncDirection,
    policy: ConflictPolicy,
    nodes: Seq<DiffNode>,
    order: Seq<usize>,
) -> Result<Seq<(Seq<char>, Seq<char>, Seq<char>)>, Seq<char>>
    decreases order.len(),
{
    if order.len() == 0 {
        Ok(Seq::empty())
    } else {
        let n = nodes[order.last() as int];
        match planned(dir, policy, nodes, order.drop_last()) {
            Err(p) => Err(p),
            Ok(prev) => match node_action(dir, policy, n) {
                None => Ok(prev),
                Some(Err(())) => Err(n.relative_path@),
                Some(Ok((code, detail))) => Ok(prev.push((code, n.relative_path@, detail))),
            },
        }
    }
}

/// The models of action reports.
pub open spec fn actions_view(v: Seq<SyncActionReport>) -> Seq<(Seq<char>, Seq<char>, Seq<char>)> {
    v.map_values(|a: SyncActionReport| (a.code@, a.path@, a.detail@))
}

/// The direction named by `s`, if any.
pub fn parse_direction(s: &str) -> (res: Option<SyncDirection>)
    ensures
        res == direction_named(s@),
{
    if same_text(s, DIR_LEFT_TO_RIGHT) {
        Some(SyncDirection::LeftToRight)
    } else if same_text(s, DIR_RIGHT_TO_LEFT) {
        Some(SyncDirection::RightToLeft)
    } else if same_text(s, DIR_BIDIRECTIONAL) {
        Some(SyncDirection::Bidirectional)
    } else {
        None
    }
}

/// The conflict policy named by `s`, if any.
pub fn parse_conflict_policy(s: &str) -> (res: Option<ConflictPolicy>)
    ensures
        res == policy_named(s@),
{
    if same_text(s, POLICY_NEWEST) {
        Some(ConflictPolicy::Newest)
    } else if same_text(s, POLICY_LEFT) {
        Some(ConflictPolicy::Left)
    } else if same_text(s, POLICY_RIGHT) {
        Some(ConflictPolicy::Right)
    } else if same_text(s, POLICY_SKIP) {
        Some(ConflictPolicy::Skip)
    } else if same_text(s, POLICY_ERROR) {
        Some(ConflictPolicy::Error)
    } else {
        None
    }
}

/// A string holding the characters of `s`.
fn owned(s: &str) -> (res: String)
    ensures
        res@ == s@,
{
    string_from_chars(chars_of(s).as_slice())
}

/// The node indices sorted by path, stably.
fn path_order(nodes: &[DiffNode]) -> (res: Vec<usize>)
    ensures
        stable_path_order(nodes@, res@),
{
    let n = nodes.len();
    let mut keys: Vec<PathKey> = Vec::new();
    for k in 0..n
        invariant
            n == nodes@.len(),
            keys@.len() == k,
            forall|j: int| 0 <= j < k ==> key_view((#[trigger] keys@[j]).comps@) == components(nodes@[j].relative_path@),
    {
        keys.push(PathKey::of(nodes[k].relative_path.as_str()));
    }
    let mut order: Vec<usize> = Vec::new();
    for m in 0..n
        invariant
            n == nodes@.len(),
            keys@.len() == n,
            forall|j: int| 0 <= j < n ==> key_view((#[trigger] keys@[j]).comps@) == components(nodes@[j].relative_path@),
            order@.len() == m,
            forall|t: int| 0 <= t < order@.len() ==> (#[trigger] order@[t]) < m,
            forall|t: int, u: int| 0 <= t < u < order@.len() ==> #[trigger] order@[t] != #[trigger] order@[u],
            forall|t: int| 0 <= t < order@.len() - 1 ==> #[trigger] ordered_at(nodes@, order@, t),
    {
        let ghost km = components(nodes@[m as int].relative_path@);
        let mut p: usize = 0;
        loop
            invariant
                p <= order@.len(),
                keys@.len() == n,
                m < n,
                km == components(nodes@[m as int].relative_path@),
                forall|t: int| 0 <= t < order@.len() ==> (#[trigger] order@[t]) < m,
                forall|t: int| 0 <= t < p ==> !components_less(km, #[trigger] components(nodes@[order@[t] as int].relative_path@)),
                forall|j: int| 0 <= j < n ==> key_view((#[trigger] keys@[j]).comps@) == components(nodes@[j].relative_path@),
            ensures
                p <= order@.len(),
                forall|t: int| 0 <= t < p ==> !components_less(km, #[trigger] components(nodes@[order@[t] as int].relative_path@)),
                p < order@.len() ==> components_less(km, components(nodes@[order@[p as int] as int].relative_path@)),
            decreases order@.len() - p,
        {
            if p >= order.len() {
                break;
            }
            let q = order[p];
            assert(key_view(keys@[q as int].comps@) == components(nodes@[q as int].relative_path@));
            assert(key_view(keys@[m as int].comps@) == km);
            if compare_keys(&keys[q], &keys[m]) == PathOrder::Greater {
                break;
            }
            p += 1;
        }
        let ghost before = order@;
        order.insert(p, m);
        proof {
            assert(order@ == before.insert(p as int, m));
            lemma_insert_stable(nodes@, before, m, p as int, km);
        }
    }
    order
}

/// Inserting index `m` (above every listed index) after the listed paths
/// that do not come after its path keeps the order stable and sorted.
proof fn lemma_insert_stable(nodes: Seq<DiffNode>, before: Seq<usize>, m: usize, p: int, km: Seq<Component>)
    requires
        m < nodes.len(),
        km == components(nodes[m as int].relative_path@),
        0 <= p <= before.len(),
        forall|t: int| 0 <= t < before.len() ==> (#[trigger] before[t]) < m,
        forall|t: int, u: int| 0 <= t < u < before.len() ==> #[trigger] before[t] != #[trigger] before[u],
        forall|t: int| 0 <= t < before.len() - 1 ==> #[trigger] ordered_at(nodes, before, t),
        forall|t: int| 0 <= t < p ==> !components_less(km, #[trigger] components(nodes[before[t] as int].relative_path@)),
        p < before.len() ==> components_less(km, components(nodes[before[p] as int].relative_path@)),
    ensures
        ({
            let order = before.insert(p, m);
            &&& forall|t: int| 0 <= t < order.len() ==> (#[trigger] order[t]) < m + 1
            &&& forall|t: int, u: int| 0 <= t < u < order.len() ==> #[trigger] order[t] != #[trigger] order[u]
            &&& forall|t: int| 0 <= t < order.len() - 1 ==> #[trigger] ordered_at(nodes, order, t)
        }),
{
    let order = before.insert(p, m);
    assert forall|t: int| 0 <= t < order.len() - 1 implies #[trigger] ordered_at(nodes, order, t) by {
        if t + 1 < p {
            assert(order[t] == before[t] && order[t + 1] == before[t + 1]);
            assert(ordered_at(nodes, before, t));
        } else if t + 1 == p {
            assert(order[t] == before[t] && order[t + 1] == m);
            let a = components(nodes[before[t] as int].relative_path@);
            assert(!components_less(km, a));
            lemma_components_trichotomy(a, km);
        } else if t == p {
            assert(order[t] == m && order[t + 1] == before[t]);
        } else {
            assert(order[t] == before[t - 1] && order[t + 1] == before[t]);
            assert(ordered_at(nodes, before, t - 1));
        }
    }
    assert forall|t: int, u: int| 0 <= t < u < order.len() implies #[trigger] order[t] != #[trigger] order[u] by {
        if t < p && u < p {
            assert(order[t] == before[t] && order[u] == before[u]);
        } else if t < p && u == p {
            assert(order[t] == before[t]);
        } else if t < p {
            assert(order[t] == before[t] && order[u] == before[u - 1]);
        } else if t == p {
            assert(order[u] == before[u - 1]);
        } else {
            assert(order[t] == before[t - 1] && order[u] == before[u - 1]);
        }
    }
    assert forall|t: int| 0 <= t < order.len() implies (#[trigger] order[t]) < m + 1 by {
        if t < p {
            assert(order[t] == before[t]);
        } else if t > p {
            assert(order[t] == before[t - 1]);
        }
    }
}

/// Two component lists are equal, or one comes before the other.
proof fn lemma_components_trichotomy(a: Seq<Component>, b: Seq<Component>)
    ensures
        a == b || components_less(a, b) || components_less(b, a),
    decreases a.len(),
{
    if a.len() > 0 && b.len() > 0 {
        if a[0] == b[0] {
            lemma_components_trichotomy(a.drop_first(), b.drop_first());
            if a.drop_first() == b.drop_first() {
                assert(a =~= seq![a[0]] + a.drop_first());
                assert(b =~= seq![b[0]] + b.drop_first());
            }
        } else {
            lemma_text_trichotomy(a[0].1, b[0].1);
        }
    } else if a.len() == 0 && b.len() == 0 {
        assert(a =~= b);
    }
}

/// Two texts are equal, or one comes before the other.
proof fn lemma_text_trichotomy(a: Seq<char>, b: Seq<char>)
    ensures
        a == b || crate::paths::text_less(a, b) || crate::paths::text_less(b, a),
    decreases a.len(),
{
    if a.len() > 0 && b.len() > 0 {
        if a[0] == b[0] {
            lemma_text_trichotomy(a.drop_first(), b.drop_first());
            if a.drop_first() == b.drop_first() {
                assert(a =~= seq![a[0]] + a.drop_first());
                assert(b =~= seq![b[0]] + b.drop_first());
            }
        }
    } else if a.len() == 0 && b.len() == 0 {
        assert(a =~= b);
    }
}

/// Plan the synchronisation actions for the comparison nodes, in path
/// order: nothing for identical paths, a skip for unchecked ones, and for
/// the others what the direction (and, both ways, the conflict policy)
/// asks. An unknown direction or policy name, or a conflict under the error
/// policy, is an error.
pub fn plan_sync_actions(entries: &[DiffNode], direction: &str, conflict_policy: &str) -> (res: Result<Vec<SyncActionReport>, String>)
    ensures
        direction_named(direction@) is None ==> (res matches Err(m) && m@ == BAD_DIRECTION@),
        direction_named(direction@) is Some && policy_named(conflict_policy@) is None ==> (res matches Err(m) && m@ == BAD_POLICY@),
        direction_named(direction@) is Some && policy_named(conflict_policy@) is Some ==> exists|order: Seq<usize>|
            #![trigger stable_path_order(entries@, order)]
            stable_path_order(entries@, order) && match planned(
                direction_named(direction@).unwrap(),
                policy_named(conflict_policy@).unwrap(),
                entries@,
                order,
            ) {
                Ok(acts) => res matches Ok(v) && actions_view(v@) == acts,
                Err(p) => res matches Err(m) && m@ == CONFLICT_OPEN@ + p + CONFLICT_CLOSE@,
            },
{
    let dir = match parse_direction(direction) {
        Some(d) => d,
        None => {
            return Err(owned(BAD_DIRECTION));
        },
    };
    let policy = match parse_conflict_policy(conflict_policy) {
        Some(p) => p,
        None => {
            return Err(owned(BAD_POLICY));
        },
    };
    let order = path_order(entries);
    let ghost o = order@;
    let mut actions: Vec<SyncActionReport> = Vec::new();
    let n = order.len();
    assert(o.take(0) =~= Seq::<usize>::empty());
    assert(actions_view(actions@) =~= Seq::<(Seq<char>, Seq<char>, Seq<char>)>::empty());
    for t in 0..n
        invariant
            n == o.len(),
            o == order@,
            stable_path_order(entries@, o),
            direction_named(direction@) == Some(dir),
            policy_named(conflict_policy@) == Some(policy),
            planned(dir, policy, entries@, o.take(t as int)) == Ok::<Seq<(Seq<char>, Seq<char>, Seq<char>)>, Seq<char>>(actions_view(actions@)),
    {
        let entry = &entries[order[t]];
        proof {
            assert(o.take(t + 1).drop_last() =~= o.take(t as int));
            assert(o.take(t + 1).last() == o[t as int]);
        }
        let lm = match &entry.left {
            Some(e) => Some(e.modified),
            None => None,
        };
        let rm = match &entry.right {
            Some(e) => Some(e.modified),
            None => None,
        };
        let ghost before = actions_view(actions@);
        match plan_one(dir, policy, entry.status, lm, rm) {
            PlanStep::Nothing => {},
            PlanStep::Conflict => {
                let mut m = owned(CONFLICT_OPEN);
                push_str(&mut m, entry.relative_path.as_str());
                push_str(&mut m, CONFLICT_CLOSE);
                proof {
                    lemma_planned_err_stays(dir, policy, entries@, o, t + 1);
                    assert(o.take(n as int) =~= o);
                }
                return Err(m);
            },
            PlanStep::Act(code, detail) => {
                let a = SyncActionReport { code: owned(code), path: owned(entry.relative_path.as_str()), detail: owned(detail) };
                actions.push(a);
                assert(actions_view(actions@) =~= before.push((code@, entry.relative_path@, detail@)));
            },
        }
    }
    assert(o.take(n as int) =~= o);
    Ok(actions)
}

/// One node's part of the plan.
pub enum PlanStep {
    Nothing,
    Conflict,
    Act(&'static str, &'static str),
}

/// The action for one node, as text constants.
fn plan_one(dir: SyncDirection, policy: ConflictPolicy, st: DiffStatus, lm: Option<i128>, rm: Option<i128>) -> (res: PlanStep)
    ensures
        match res {
            PlanStep::Nothing => action_for(dir, policy, st, lm, rm) is None,
            PlanStep::Conflict => action_for(dir, policy, st, lm, rm) == Some(Err::<(Seq<char>, Seq<char>), ()>(())),
            PlanStep::Act(c, d) => action_for(dir, policy, st, lm, rm) == Some(Ok::<(Seq<char>, Seq<char>), ()>((c@, d@))),
        },
{
    reveal(action_for);
    if st == DiffStatus::Same {
        return PlanStep::Nothing;
    }
    if st == DiffStatus::Unchecked {
        return PlanStep::Act(CODE_SKIP, DETAIL_UNCHECKED);
    }
    match dir {
        SyncDirection::LeftToRight => match st {
            DiffStatus::OrphanLeft => PlanStep::Act(CODE_COPY_LR, DETAIL_CREATE_RIGHT),
            DiffStatus::OrphanRight => PlanStep::Act(CODE_DELETE_R, DETAIL_DELETE_RIGHT),
            _ => PlanStep::Act(CODE_UPDATE_R, DETAIL_OVERWRITE_RIGHT),
        },
        SyncDirection::RightToLeft => match st {
            DiffStatus::OrphanRight => PlanStep::Act(CODE_COPY_RL, DETAIL_CREATE_LEFT),
            DiffStatus::OrphanLeft => PlanStep::Act(CODE_DELETE_L, DETAIL_DELETE_LEFT),
            _ => PlanStep::Act(CODE_UPDATE_L, DETAIL_OVERWRITE_LEFT),
        },
        SyncDirection::Bidirectional => match st {
            DiffStatus::OrphanLeft => PlanStep::Act(CODE_COPY_LR, DETAIL_MISSING_RIGHT),
            DiffStatus::OrphanRight => PlanStep::Act(CODE_COPY_RL, DETAIL_MISSING_LEFT),
            _ => match policy {
                ConflictPolicy::Left => PlanStep::Act(CODE_COPY_LR, DETAIL_POLICY_LEFT),
                ConflictPolicy::Right => PlanStep::Act(CODE_COPY_RL, DETAIL_POLICY_RIGHT),
                ConflictPolicy::Skip => PlanStep::Act(CODE_SKIP, DETAIL_POLICY_SKIP),
                ConflictPolicy::Error => PlanStep::Conflict,
                ConflictPolicy::Newest => match (lm, rm) {
                    (Some(l), Some(r)) => if l > r {
                        PlanStep::Act(CODE_COPY_LR, DETAIL_LEFT_NEWER)
                    } else if r > l {
                        PlanStep::Act(CODE_COPY_RL, DETAIL_RIGHT_NEWER)
                    } else {
                        PlanStep::Act(CODE_SKIP, DETAIL_UNKNOWN_NEWER)
                    },
                    _ => PlanStep::Act(CODE_SKIP, DETAIL_UNKNOWN_NEWER),
                },
            },
        },
    }
}

/// Once the plan of a prefix failed, every longer prefix fails the same way.
proof fn lemma_planned_err_stays(
    dir: SyncDirection,
    policy: ConflictPolicy,
    nodes: Seq<DiffNode>,
    o: Seq<usize>,
    k: int,
)
    requires
        0 <= k <= o.len(),
        planned(dir, policy, nodes, o.take(k)) is Err,
    ensures
        planned(dir, policy, nodes, o) == planned(dir, policy, nodes, o.take(k)),
    decreases o.len() - k,
{
    if k < o.len() {
        assert(o.take(k + 1).drop_last() =~= o.take(k));
        lemma_planned_err_stays(dir, policy, nodes, o, k + 1);
    } else {
        assert(o.take(k) =~= o);
    }
}

/// What a sync action does.
#[derive(Debug, Clone, Copy, PartialEq, Eq, Structural)]
pub enum ActionKind {
    /// Copy a file from the left to the right side.
    CopyLeftToRight,
    /// Copy a file from the right to the left side.
    CopyRightToLeft,
    /// Overwrite the right file with the left one.
    UpdateRight,
    /// Overwrite the left file with the right one.
    UpdateLeft,
    /// Delete the right file.
    DeleteRight,
    /// Delete the left file.
    DeleteLeft,
    /// Do nothing.
    Skip,
}

/// The kind of action a code names; any other code is skipped.
pub open spec fn action_kind_of(code: Seq<char>) -> ActionKind {
    if code == CODE_COPY_LR@ {
        ActionKind::CopyLeftToRight
    } else if code == CODE_COPY_RL@ {
        ActionKind::CopyRightToLeft
    } else if code == CODE_UPDATE_R@ {
        ActionKind::UpdateRight
    } else if code == CODE_UPDATE_L@ {
        ActionKind::UpdateLeft
    } else if code == CODE_DELETE_R@ {
        ActionKind::DeleteRight
    } else if code == CODE_DELETE_L@ {
        ActionKind::DeleteLeft
    } else {
        ActionKind::Skip
    }
}

/// The kind of action a code names.
pub fn action_kind(code: &str) -> (res: ActionKind)
    ensures
        res == action_kind_of(code@),
{
    if crate::text::same_text(code, CODE_COPY_LR) {
        ActionKind::CopyLeftToRight
    } else if crate::text::same_text(code, CODE_COPY_RL) {
        ActionKind::CopyRightToLeft
    } else if crate::text::same_text(code, CODE_UPDATE_R) {
        ActionKind::UpdateRight
    } else if crate::text::same_text(code, CODE_UPDATE_L) {
        ActionKind::UpdateLeft
    } else if crate::text::same_text(code, CODE_DELETE_R) {
        ActionKind::DeleteRight
    } else if crate::text::same_text(code, CODE_DELETE_L) {
        ActionKind::DeleteLeft
    } else {
        ActionKind::Skip
    }
}

/// Counts of a sync run by what its actions did.
#[derive(Debug, Clone, Copy, PartialEq, Eq, Structural)]
pub struct SyncSummary {
    pub total_actions: usize,
    pub copied: usize,
    pub updated: usize,
    pub deleted: usize,
    pub skipped: usize,
    pub failed: usize,
}

/// How many of the first `n` actions are of the kinds `pred` selects.
pub open spec fn count_kinds(actions: Seq<SyncActionReport>, n: int, pred: spec_fn(ActionKind) -> bool) -> int
    decreases n,
{
    if n <= 0 {
        0
    } else {
        count_kinds(actions, n - 1, pred) + if pred(action_kind_of(actions[n - 1].code@)) { 1int } else { 0int }
    }
}

pub open spec fn is_copy(k: ActionKind) -> bool {
    k == ActionKind::CopyLeftToRight || k == ActionKind::CopyRightToLeft
}

pub open spec fn is_update(k: ActionKind) -> bool {
    k == ActionKind::UpdateRight || k == ActionKind::UpdateLeft
}

pub open spec fn is_delete(k: ActionKind) -> bool {
    k == ActionKind::DeleteRight || k == ActionKind::DeleteLeft
}

pub open spec fn is_skip(k: ActionKind) -> bool {
    k == ActionKind::Skip
}

/// The summary of planned actions that are not carried out: each counted
/// as what it would do.
pub fn summarize_planned(actions: &Vec<SyncActionReport>) -> (res: SyncSummary)
    ensures
        res.total_actions == actions@.len(),
        res.copied == count_kinds(actions@, actions@.len() as int, |k: ActionKind| is_copy(k)),
        res.updated == count_kinds(actions@, actions@.len() as int, |k: ActionKind| is_update(k)),
        res.deleted == count_kinds(actions@, actions@.len() as int, |k: ActionKind| is_delete(k)),
        res.skipped == count_kinds(actions@, actions@.len() as int, |k: ActionKind| is_skip(k)),
        res.failed == 0,
{
    let n = actions.len();
    let mut s = SyncSummary { total_actions: n, copied: 0, updated: 0, deleted: 0, skipped: 0, failed: 0 };
    for i in 0..n
        invariant
            n == actions@.len(),
            s.total_actions == n,
            s.failed == 0,
            s.copied == count_kinds(actions@, i as int, |k: ActionKind| is_copy(k)),
            s.updated == count_kinds(actions@, i as int, |k: ActionKind| is_update(k)),
            s.deleted == count_kinds(actions@, i as int, |k: ActionKind| is_delete(k)),
            s.skipped == count_kinds(actions@, i as int, |k: ActionKind| is_skip(k)),
            s.copied + s.updated + s.deleted + s.skipped == i,
    {
        match action_kind(actions[i].code.as_str()) {
            ActionKind::CopyLeftToRight | ActionKind::CopyRightToLeft => s.copied = s.copied + 1,
            ActionKind::UpdateRight | ActionKind::UpdateLeft => s.updated = s.updated + 1,
            ActionKind::DeleteRight | ActionKind::DeleteLeft => s.deleted = s.deleted + 1,
            ActionKind::Skip => s.skipped = s.skipped + 1,
        }
    }
    s
}

/// How many outcomes a summary has counted.
pub open spec fn counted(s: SyncSummary) -> int {
    s.copied + s.updated + s.deleted + s.skipped + s.failed
}

/// Counts the outcome of an executed action: a failure as failed, and a
/// success by the action's kind (copied, updated, deleted or skipped).
pub fn record_outcome(summary: &mut SyncSummary, kind: ActionKind, ok: bool)
    requires
        counted(*old(summary)) < old(summary).total_actions,
    ensures
        final(summary).total_actions == old(summary).total_actions,
        final(summary).copied == old(summary).copied + if ok && is_copy(kind) { 1int } else { 0int },
        final(summary).updated == old(summary).updated + if ok && is_update(kind) { 1int } else { 0int },
        final(summary).deleted == old(summary).deleted + if ok && is_delete(kind) { 1int } else { 0int },
        final(summary).skipped == old(summary).skipped + if ok && is_skip(kind) { 1int } else { 0int },
        final(summary).failed == old(summary).failed + if ok { 0int } else { 1int },
        counted(*final(summary)) == counted(*old(summary)) + 1,
{
    if !ok {
        summary.failed = summary.failed + 1;
        return;
    }
    match kind {
        ActionKind::CopyLeftToRight | ActionKind::CopyRightToLeft => summary.copied = summary.copied + 1,
        ActionKind::UpdateRight | ActionKind::UpdateLeft => summary.updated = summary.updated + 1,
        ActionKind::DeleteRight | ActionKind::DeleteLeft => summary.deleted = summary.deleted + 1,
        ActionKind::Skip => summary.skipped = summary.skipped + 1,
    }
}

/// The action code changes the left side.
pub open spec fn writes_left(code: Seq<char>) -> bool {
    code == CODE_COPY_RL@ || code == CODE_DELETE_L@ || code == CODE_UPDATE_L@
}

/// The action code changes the right side.
pub open spec fn writes_right(code: Seq<char>) -> bool {
    code == CODE_COPY_LR@ || code == CODE_DELETE_R@ || code == CODE_UPDATE_R@
}

/// A plan fails only for a conflict, both ways, under the error policy; a
/// plan from left to right never changes the left side, and one from right
/// to left never changes the right side.
pub proof fn lemma_one_way_plans_touch_target_only(
    dir: SyncDirection,
    policy: ConflictPolicy,
    nodes: Seq<DiffNode>,
    order: Seq<usize>,
)
    ensures
        planned(dir, policy, nodes, order) is Err ==> dir == SyncDirection::Bidirectional && policy
            == ConflictPolicy::Error,
        dir == SyncDirection::LeftToRight ==> (planned(dir, policy, nodes, order) matches Ok(acts)
            && forall|i: int| 0 <= i < acts.len() ==> !writes_left(#[trigger] acts[i].0)),
        dir == SyncDirection::RightToLeft ==> (planned(dir, policy, nodes, order) matches Ok(acts)
            && forall|i: int| 0 <= i < acts.len() ==> !writes_right(#[trigger] acts[i].0)),
    decreases order.len(),
{
    reveal(action_for);
    reveal_strlit("SKIP");
    reveal_strlit("COPY_LR");
    reveal_strlit("COPY_RL");
    reveal_strlit("DELETE_L");
    reveal_strlit("DELETE_R");
    reveal_strlit("UPDATE_L");
    reveal_strlit("UPDATE_R");
    assert(CODE_SKIP@.len() == 4 && CODE_COPY_LR@.len() == 7 && CODE_COPY_RL@.len() == 7);
    assert(CODE_DELETE_L@.len() == 8 && CODE_DELETE_R@.len() == 8);
    assert(CODE_UPDATE_L@.len() == 8 && CODE_UPDATE_R@.len() == 8);
    assert(CODE_COPY_LR@[5] == 'L' && CODE_COPY_RL@[5] == 'R');
    assert(CODE_DELETE_L@[0] == 'D' && CODE_DELETE_L@[7] == 'L');
    assert(CODE_DELETE_R@[0] == 'D' && CODE_DELETE_R@[7] == 'R');
    assert(CODE_UPDATE_L@[0] == 'U' && CODE_UPDATE_L@[7] == 'L');
    assert(CODE_UPDATE_R@[0] == 'U' && CODE_UPDATE_R@[7] == 'R');
    assert(CODE_COPY_LR@ != CODE_COPY_RL@ && CODE_COPY_LR@ != CODE_DELETE_L@ && CODE_COPY_LR@
        != CODE_UPDATE_L@);
    assert(CODE_DELETE_R@ != CODE_COPY_RL@ && CODE_DELETE_R@ != CODE_DELETE_L@ && CODE_DELETE_R@
        != CODE_UPDATE_L@);
    assert(CODE_UPDATE_R@ != CODE_COPY_RL@ && CODE_UPDATE_R@ != CODE_DELETE_L@ && CODE_UPDATE_R@
        != CODE_UPDATE_L@);
    assert(CODE_SKIP@ != CODE_COPY_RL@ && CODE_SKIP@ != CODE_DELETE_L@ && CODE_SKIP@
        != CODE_UPDATE_L@);
    assert(CODE_SKIP@ != CODE_COPY_LR@ && CODE_SKIP@ != CODE_DELETE_R@ && CODE_SKIP@
        != CODE_UPDATE_R@);
    if order.len() > 0 {
        let rest = order.drop_last();
        lemma_one_way_plans_touch_target_only(dir, policy, nodes, rest);
        let n = nodes[order.last() as int];
        if dir != SyncDirection::Bidirectional {
            let prev = planned(dir, policy, nodes, rest)->Ok_0;
            match node_action(dir, policy, n) {
                Some(Ok((code, detail))) => {
                    let acts = prev.push((code, n.relative_path@, detail));
                    assert(dir == SyncDirection::LeftToRight ==> !writes_left(code));
                    assert(dir == SyncDirection::RightToLeft ==> !writes_right(code));
                    assert(forall|i: int| 0 <= i < prev.len() ==> acts[i] == prev[i]);
                },
                _ => {},
            }
        }
    }
}


/// In a bidirectional synchronisation, a path that differs on both sides
/// is settled by the conflict policy: `left` copies the left file over the
/// right one, `right` the right file over the left one, `newest` copies the
/// newer file over the older one (and skips when neither is newer or a time
/// is unknown), `skip` leaves both, and `error` refuses the plan. A path
/// present on one side only is copied to the other side, whatever the
/// policy.
pub proof fn lemma_bidirectional_policy(policy: ConflictPolicy, lm: Option<i128>, rm: Option<i128>)
    ensures
        action_for(SyncDirection::Bidirectional, ConflictPolicy::Left, DiffStatus::Different, lm, rm) matches Some(
            Ok((code, _)),
        ) && code == CODE_COPY_LR@,
        action_for(SyncDirection::Bidirectional, ConflictPolicy::Right, DiffStatus::Different, lm, rm) matches Some(
            Ok((code, _)),
        ) && code == CODE_COPY_RL@,
        action_for(SyncDirection::Bidirectional, ConflictPolicy::Skip, DiffStatus::Different, lm, rm) matches Some(
            Ok((code, _)),
        ) && code == CODE_SKIP@,
        action_for(SyncDirection::Bidirectional, ConflictPolicy::Error, DiffStatus::Different, lm, rm) == Some(
            Err::<(Seq<char>, Seq<char>), ()>(()),
        ),
        action_for(SyncDirection::Bidirectional, ConflictPolicy::Newest, DiffStatus::Different, lm, rm) matches Some(
            Ok((code, _)),
        ) && code == match (lm, rm) {
            (Some(l), Some(r)) => if l > r {
                CODE_COPY_LR@
            } else if r > l {
                CODE_COPY_RL@
            } else {
                CODE_SKIP@
            },
            _ => CODE_SKIP@,
        },
        action_for(SyncDirection::Bidirectional, policy, DiffStatus::OrphanLeft, lm, rm) matches Some(Ok((code, _)))
            && code == CODE_COPY_LR@,
        action_for(SyncDirection::Bidirectional, policy, DiffStatus::OrphanRight, lm, rm) matches Some(Ok((code, _)))
            && code == CODE_COPY_RL@,
{
    reveal(action_for);
}

/// Exchanging the sides of a bidirectional synchronisation (the policy,
/// the orphan side and the modification times) exchanges the direction of
/// every copy.
pub proof fn lemma_bidirectional_mirror(policy: ConflictPolicy, st: DiffStatus, lm: Option<i128>, rm: Option<i128>)
    ensures
        ({
            let mp = match policy {
                ConflictPolicy::Left => ConflictPolicy::Right,
                ConflictPolicy::Right => ConflictPolicy::Left,
                p => p,
            };
            let ms = match st {
                DiffStatus::OrphanLeft => DiffStatus::OrphanRight,
                DiffStatus::OrphanRight => DiffStatus::OrphanLeft,
                s => s,
            };
            match (
                action_for(SyncDirection::Bidirectional, policy, st, lm, rm),
                action_for(SyncDirection::Bidirectional, mp, ms, rm, lm),
            ) {
                (Some(Ok((a, _))), Some(Ok((b, _)))) => (a == CODE_COPY_LR@ <==> b == CODE_COPY_RL@) && (a
                    == CODE_COPY_RL@ <==> b == CODE_COPY_LR@) && (a == CODE_SKIP@ <==> b == CODE_SKIP@),
                (None, None) => true,
                (Some(Err(_)), Some(Err(_))) => true,
                _ => false,
            }
        }),
{
    reveal(action_for);
    reveal_strlit("SKIP");
    reveal_strlit("COPY_LR");
    reveal_strlit("COPY_RL");
    assert(CODE_COPY_LR@[5] == 'L' && CODE_COPY_RL@[5] == 'R');
    assert(CODE_SKIP@.len() == 4 && CODE_COPY_LR@.len() == 7 && CODE_COPY_RL@.len() == 7);
}


/// A one-way synchronisation makes the target side like the source side:
/// a path only on the source is copied over, a path only on the target is
/// deleted from it, and a path that differs overwrites the target. In every
/// direction a path that is the same needs nothing, and an unchecked one is
/// skipped.
pub proof fn lemma_one_way_actions(dir: SyncDirection, policy: ConflictPolicy, lm: Option<i128>, rm: Option<i128>)
    ensures
        action_for(dir, policy, DiffStatus::Same, lm, rm) is None,
        action_for(dir, policy, DiffStatus::Unchecked, lm, rm) matches Some(Ok((code, _))) && code == CODE_SKIP@,
        action_for(SyncDirection::LeftToRight, policy, DiffStatus::OrphanLeft, lm, rm) matches Some(Ok((code, _)))
            && code == CODE_COPY_LR@,
        action_for(SyncDirection::LeftToRight, policy, DiffStatus::OrphanRight, lm, rm) matches Some(Ok((code, _)))
            && code == CODE_DELETE_R@,
        action_for(SyncDirection::LeftToRight, policy, DiffStatus::Different, lm, rm) matches Some(Ok((code, _)))
            && code == CODE_UPDATE_R@,
        action_for(SyncDirection::RightToLeft, policy, DiffStatus::OrphanRight, lm, rm) matches Some(Ok((code, _)))
            && code == CODE_COPY_RL@,
        action_for(SyncDirection::RightToLeft, policy, DiffStatus::OrphanLeft, lm, rm) matches Some(Ok((code, _)))
            && code == CODE_DELETE_L@,
        action_for(SyncDirection::RightToLeft, policy, DiffStatus::Different, lm, rm) matches Some(Ok((code, _)))
            && code == CODE_UPDATE_L@,
{
    reveal(action_for);
}

} // verus!
