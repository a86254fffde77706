//! The three structural edge layers (decomposition, dependency, grouping) and
//! the rules an edge must pass before it is written: no self-edge, no cycle in
//! the decomposition and dependency layers, a container on the group side of a
//! grouping edge, and idempotence for an edge that already exists.

use vstd::prelude::*;
use crate::error::{graph_rule_with, invalid_with, HavenError};
use crate::model::{node_type_name, NodeType};
use crate::text::{debug_quoted, debug_quoted_spec, push_str, str_eq, string_of};

verus! {

/// Which structural edge layer an edge belongs to.
#[derive(Debug, Clone, Copy, PartialEq, Eq, Structural)]
pub enum EdgeKind {
    Decomposition,
    Dependency,
    Grouping,
}

/// The wire name of each edge kind.
pub open spec fn edge_kind_name(k: EdgeKind) -> Seq<char> {
    match k {
        EdgeKind::Decomposition => "decomposition"@,
        EdgeKind::Dependency => "dependency"@,
        EdgeKind::Grouping => "grouping"@,
    }
}

impl EdgeKind {
    /// Parse `decomposition`, `dependency` or `grouping`.
    pub fn parse(s: &str) -> (r: Result<EdgeKind, HavenError>)
        ensures
            match r {
                Ok(k) => edge_kind_name(k) == s@,
                Err(e) => (forall|k: EdgeKind| edge_kind_name(k) != s@) && invalid_with(
                    e,
                    "unknown edge kind "@ + debug_quoted_spec(s@),
                ),
            },
    {
        if str_eq(s, "decomposition") {
            return Ok(EdgeKind::Decomposition);
        }
        if str_eq(s, "dependency") {
            return Ok(EdgeKind::Dependency);
        }
        if str_eq(s, "grouping") {
            return Ok(EdgeKind::Grouping);
        }
        let mut msg = string_of("unknown edge kind ");
        let q = debug_quoted(s);
        push_str(&mut msg, q.as_str());
        proof {
            assert forall|k: EdgeKind| edge_kind_name(k) != s@ by {
                match k {
                    EdgeKind::Decomposition => {},
                    EdgeKind::Dependency => {},
                    EdgeKind::Grouping => {},
                }
            }
        }
        Err(HavenError::Invalid(msg))
    }

    /// The stable wire name.
    pub fn as_str(self) -> (r: &'static str)
        ensures
            r@ == edge_kind_name(self),
    {
        match self {
            EdgeKind::Decomposition => "decomposition",
            EdgeKind::Dependency => "dependency",
            EdgeKind::Grouping => "grouping",
        }
    }
}

/// What to do with a requested edge that passed the rules.
#[derive(Debug, Clone, Copy, PartialEq, Eq, Structural)]
pub enum EdgeAction {
    /// Write the edge.
    Insert,
    /// The edge is already there: nothing to do.
    AlreadyPresent,
}

/// The refusal of a self-edge in each layer.
pub open spec fn self_edge_msg(k: EdgeKind) -> Seq<char> {
    match k {
        EdgeKind::Decomposition => "a node cannot decompose into itself"@,
        EdgeKind::Dependency => "a node cannot depend on itself"@,
        EdgeKind::Grouping => "a node cannot group itself"@,
    }
}

/// The refusal of an edge that would close a cycle.
pub open spec fn cycle_msg(k: EdgeKind) -> Seq<char> {
    match k {
        EdgeKind::Decomposition => "decomposition edge would create a cycle"@,
        _ => "dependency edge would create a cycle"@,
    }
}

/// The refusal of a grouping edge whose group side is not a container.
pub open spec fn group_target_msg(t: NodeType) -> Seq<char> {
    "group target must be a release/phase/gate node, not "@ + node_type_name(t)
        + " — the container is the group side (the `from` of a grouping edge), the member the other"@
}

/// The decision for a requested edge `from -> to` of layer `kind`, given whether
/// the edge already exists, whether `to` already reaches `from` in that layer
/// (so the edge would close a cycle), and the type of `from` (the group side of
/// a grouping edge). Self-edges are refused first. A decomposition or dependency
/// edge that exists is a no-op, and one that would close a cycle is refused. A
/// grouping edge needs a container on its group side, then is a no-op if it exists.
pub open spec fn edge_decision_ok(
    kind: EdgeKind,
    from: int,
    to: int,
    exists: bool,
    closes_cycle: bool,
    from_type: NodeType,
) -> Option<EdgeAction> {
    if from == to {
        None
    } else {
        match kind {
            EdgeKind::Grouping => if !from_type.is_container_spec() {
                None
            } else if exists {
                Some(EdgeAction::AlreadyPresent)
            } else {
                Some(EdgeAction::Insert)
            },
            _ => if exists {
                Some(EdgeAction::AlreadyPresent)
            } else if closes_cycle {
                None
            } else {
                Some(EdgeAction::Insert)
            },
        }
    }
}

/// Decide a requested structural edge (see [`edge_decision_ok`]); refusals are
/// `GraphRule` errors.
pub fn plan_edge(
    kind: EdgeKind,
    from: i64,
    to: i64,
    exists: bool,
    closes_cycle: bool,
    from_type: NodeType,
) -> (r: Result<EdgeAction, HavenError>)
    ensures
        match r {
            Ok(a) => edge_decision_ok(kind, from as int, to as int, exists, closes_cycle, from_type)
                == Some(a),
            Err(e) => edge_decision_ok(kind, from as int, to as int, exists, closes_cycle, from_type)
                is None && (if from == to {
                graph_rule_with(e, self_edge_msg(kind))
            } else if kind == EdgeKind::Grouping {
                graph_rule_with(e, group_target_msg(from_type))
            } else {
                graph_rule_with(e, cycle_msg(kind))
            }),
        },
        kind == EdgeKind::Grouping && from != to ==> (r is Ok <==> (from_type == NodeType::Release
            || from_type == NodeType::Phase || from_type == NodeType::Gate)),
{
    if from == to {
        let msg = match kind {
            EdgeKind::Decomposition => string_of("a node cannot decompose into itself"),
            EdgeKind::Dependency => string_of("a node cannot depend on itself"),
            EdgeKind::Grouping => string_of("a node cannot group itself"),
        };
        return Err(HavenError::GraphRule(msg));
    }
    match kind {
        EdgeKind::Grouping => {
            if !from_type.is_container() {
                let mut msg = string_of("group target must be a release/phase/gate node, not ");
                push_str(&mut msg, from_type.as_str());
                push_str(
                    &mut msg,
                    " — the container is the group side (the `from` of a grouping edge), the member the other",
                );
                return Err(HavenError::GraphRule(msg));
            }
            if exists {
                Ok(EdgeAction::AlreadyPresent)
            } else {
                Ok(EdgeAction::Insert)
            }
        },
        _ => {
            if exists {
                return Ok(EdgeAction::AlreadyPresent);
            }
            if closes_cycle {
                let msg = match kind {
                    EdgeKind::Decomposition => string_of("decomposition edge would create a cycle"),
                    _ => string_of("dependency edge would create a cycle"),
                };
                return Err(HavenError::GraphRule(msg));
            }
            Ok(EdgeAction::Insert)
        },
    }
}

// ---- the acyclic layers -----------------------------------------------------------

/// Step `i` of `p` (from `p[i]` to `p[i + 1]`) is an edge of `es`.
pub open spec fn step_in(es: Set<(int, int)>, p: Seq<int>, i: int) -> bool {
    es.contains((p[i], p[i + 1]))
}

/// `p` is a walk along the edges `es` (one node is a walk of no steps).
pub open spec fn is_walk(es: Set<(int, int)>, p: Seq<int>) -> bool {
    p.len() >= 1 && forall|i: int| 0 <= i < p.len() - 1 ==> #[trigger] step_in(es, p, i)
}

/// Some walk along `es` leads from `a` to `b`.
pub open spec fn reaches(es: Set<(int, int)>, a: int, b: int) -> bool {
    exists|p: Seq<int>| #[trigger] is_walk(es, p) && p[0] == a && p.last() == b
}

/// No walk of one or more steps along `es` returns to where it started (no
/// cycle, no self-loop).
pub open spec fn acyclic(es: Set<(int, int)>) -> bool {
    forall|p: Seq<int>| #[trigger] is_walk(es, p) && p.len() >= 2 ==> p[0] != p.last()
}

/// A walk from `to` to `from` after adding the edge `from -> to` gives one
/// without it: the part after its last use of the new edge.
proof fn lemma_walk_without_new_edge(es: Set<(int, int)>, from: int, to: int, q: Seq<int>)
    requires
        is_walk(es.insert((from, to)), q),
        q[0] == to,
        q.last() == from,
    ensures
        reaches(es, to, from),
    decreases q.len(),
{
    let all = es.insert((from, to));
    if exists|i: int| 0 <= i < q.len() - 1 && #[trigger] q[i] == from && q[i + 1] == to {
        let i = choose|i: int| 0 <= i < q.len() - 1 && #[trigger] q[i] == from && q[i + 1] == to;
        let r = q.subrange(i + 1, q.len() as int);
        assert forall|k: int| 0 <= k < r.len() - 1 implies #[trigger] step_in(all, r, k) by {
            assert(r[k] == q[i + 1 + k] && r[k + 1] == q[i + 2 + k]);
            assert(step_in(all, q, i + 1 + k));
        }
        assert(r.last() == q.last());
        lemma_walk_without_new_edge(es, from, to, r);
    } else {
        assert forall|k: int| 0 <= k < q.len() - 1 implies #[trigger] step_in(es, q, k) by {
            assert(step_in(all, q, k));
            assert(!(q[k] == from && q[k + 1] == to));
        }
        assert(is_walk(es, q));
    }
}

/// Adding an edge `from -> to` to acyclic edges keeps them acyclic unless `to`
/// already reaches `from`.
proof fn lemma_insert_keeps_acyclic(es: Set<(int, int)>, from: int, to: int)
    requires
        acyclic(es),
        from != to,
        !reaches(es, to, from),
    ensures
        acyclic(es.insert((from, to))),
{
    let all = es.insert((from, to));
    assert forall|p: Seq<int>| #[trigger] is_walk(all, p) && p.len() >= 2 implies p[0] != p.last() by {
        if p[0] == p.last() {
            if exists|i: int| 0 <= i < p.len() - 1 && #[trigger] p[i] == from && p[i + 1] == to {
                let i = choose|i: int| 0 <= i < p.len() - 1 && #[trigger] p[i] == from && p[i + 1] == to;
                let n = p.len() as int;
                // Rotate the cycle to start at `to` and end at `from`.
                let q = p.subrange(i + 1, n) + p.subrange(1, i + 1);
                assert(q.len() == n - 1);
                assert forall|k: int| 0 <= k < q.len() - 1 implies #[trigger] step_in(all, q, k) by {
                    if k < n - i - 2 {
                        assert(q[k] == p[i + 1 + k] && q[k + 1] == p[i + 2 + k]);
                        assert(step_in(all, p, i + 1 + k));
                    } else if k == n - i - 2 {
                        assert(q[k] == p[n - 1]);
                        assert(q[k + 1] == p[1]);
                        assert(step_in(all, p, 0));
                    } else {
                        let j = k - (n - i - 1) + 1;
                        assert(q[k] == p[j] && q[k + 1] == p[j + 1]);
                        assert(step_in(all, p, j));
                    }
                }
                assert(q[0] == to);
                if i == 0 {
                    assert(q.last() == p[n - 1]);
                } else {
                    assert(q.last() == p[i]);
                }
                lemma_walk_without_new_edge(es, from, to, q);
            } else {
                assert forall|k: int| 0 <= k < p.len() - 1 implies #[trigger] step_in(es, p, k) by {
                    assert(step_in(all, p, k));
                    assert(!(p[k] == from && p[k + 1] == to));
                }
                assert(is_walk(es, p));
            }
        }
    }
}

/// Decomposition and dependency layers stay acyclic: when the decision for an
/// edge of either layer over acyclic edges `es` (told whether the edge exists
/// and whether its target already reaches its source) is to insert it, the
/// edges with it are still acyclic; and an edge that is already there is never
/// inserted again.
pub proof fn lemma_planned_edges_stay_acyclic(
    kind: EdgeKind,
    es: Set<(int, int)>,
    from: int,
    to: int,
    from_type: NodeType,
)
    requires
        kind != EdgeKind::Grouping,
        acyclic(es),
    ensures
        edge_decision_ok(kind, from, to, es.contains((from, to)), reaches(es, to, from), from_type)
            == Some(EdgeAction::Insert) ==> acyclic(es.insert((from, to))),
        es.contains((from, to)) && from != to ==> edge_decision_ok(
            kind,
            from,
            to,
            true,
            reaches(es, to, from),
            from_type,
        ) == Some(EdgeAction::AlreadyPresent),
{
    if edge_decision_ok(kind, from, to, es.contains((from, to)), reaches(es, to, from), from_type)
        == Some(EdgeAction::Insert) {
        lemma_insert_keeps_acyclic(es, from, to);
    }
}

/// A grouping edge is planned only with a release, phase or gate on its group
/// side: for a task or an anchor there, or for a self-edge, the request is
/// refused whatever else holds; with a container there it is planned, as a
/// no-op when the edge exists.
pub proof fn lemma_grouping_needs_a_container(
    from: int,
    to: int,
    exists: bool,
    closes_cycle: bool,
    from_type: NodeType,
)
    ensures
        edge_decision_ok(EdgeKind::Grouping, from, to, exists, closes_cycle, from_type) is Some
            <==> (from != to && (from_type == NodeType::Release || from_type == NodeType::Phase
            || from_type == NodeType::Gate)),
        (from_type == NodeType::Task || from_type == NodeType::Anchor) ==> edge_decision_ok(
            EdgeKind::Grouping,
            from,
            to,
            exists,
            closes_cycle,
            from_type,
        ) is None,
        from != to && exists && (from_type == NodeType::Release || from_type == NodeType::Phase
            || from_type == NodeType::Gate) ==> edge_decision_ok(
            EdgeKind::Grouping,
            from,
            to,
            exists,
            closes_cycle,
            from_type,
        ) == Some(EdgeAction::AlreadyPresent),
{
}

} // verus!
