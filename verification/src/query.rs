//! Read-side rules: container rollups, the dispatch summary's wording, the
//! ranking order, the grooming nudge, and the live-only and bounded views of a
//! project graph.

use vstd::prelude::*;
use crate::edge::EdgeKind;
use crate::error::{invalid_with, HavenError};
use crate::model::{owner_kind_name, LineageEvent, Artifact, ArtifactKind, ArtifactRole, ContextPack, Item, NodeType, OwnerKind, OwnerRollup, RollupState, Status};
use crate::text::{strings_view, debug_quoted, debug_quoted_spec, nat_digits, push_str, push_usize, str_eq, string_of};

verus! {

// ---- rollups ----------------------------------------------------------------

/// A container's rollup from the statuses of its live committed descendants:
/// none -> dormant; any in progress -> active; all done -> done; else queued.
pub open spec fn rollup_spec(statuses: Seq<Status>) -> RollupState {
    if statuses.len() == 0 {
        RollupState::Dormant
    } else if statuses.contains(Status::InProgress) {
        RollupState::Active
    } else if forall|i: int| 0 <= i < statuses.len() ==> #[trigger] statuses[i] == Status::Done {
        RollupState::Done
    } else {
        RollupState::Queued
    }
}

/// Classify a container from the statuses of its live committed descendants.
pub fn rollup_from_statuses(statuses: &[Status]) -> (r: RollupState)
    ensures
        r == rollup_spec(statuses@),
{
    if statuses.len() == 0 {
        return RollupState::Dormant;
    }
    let mut all_done = true;
    let mut i: usize = 0;
    while i < statuses.len()
        invariant
            i <= statuses.len(),
            forall|j: int| 0 <= j < i ==> statuses@[j] != Status::InProgress,
            all_done == (forall|j: int| 0 <= j < i ==> #[trigger] statuses@[j] == Status::Done),
        decreases statuses.len() - i,
    {
        match statuses[i] {
            Status::InProgress => {
                assert(statuses@[i as int] == Status::InProgress);
                assert(statuses@.contains(Status::InProgress));
                return RollupState::Active;
            },
            Status::Done => {},
            _ => {
                all_done = false;
            },
        }
        i = i + 1;
    }
    if all_done {
        RollupState::Done
    } else {
        RollupState::Queued
    }
}

/// What each rollup means over the statuses of the committed live
/// descendants: `Dormant` exactly when there are none; `Active` exactly when
/// one is `InProgress`; `Done` exactly when there are some and all are `Done`;
/// `Queued` exactly when there are some, none is `InProgress` and one is not
/// `Done` (so `Blocked`, `Ready` and the rest queue rather than activate).
pub proof fn lemma_rollup_classes(statuses: Seq<Status>)
    ensures
        (rollup_spec(statuses) == RollupState::Dormant) <==> statuses.len() == 0,
        (rollup_spec(statuses) == RollupState::Active) <==> (exists|i: int|
            0 <= i < statuses.len() && #[trigger] statuses[i] == Status::InProgress),
        (rollup_spec(statuses) == RollupState::Done) <==> (statuses.len() > 0 && forall|i: int|
            0 <= i < statuses.len() ==> #[trigger] statuses[i] == Status::Done),
        (rollup_spec(statuses) == RollupState::Queued) <==> (statuses.len() > 0 && (forall|i: int|
            0 <= i < statuses.len() ==> #[trigger] statuses[i] != Status::InProgress) && (exists|i: int|
            0 <= i < statuses.len() && #[trigger] statuses[i] != Status::Done)),
{
    if exists|i: int| 0 <= i < statuses.len() && #[trigger] statuses[i] == Status::InProgress {
        let i = choose|i: int| 0 <= i < statuses.len() && #[trigger] statuses[i] == Status::InProgress;
        assert(statuses.contains(Status::InProgress));
        assert(statuses[i] != Status::Done);
    }
    if statuses.contains(Status::InProgress) {
        let i = choose|i: int| 0 <= i < statuses.len() && statuses[i] == Status::InProgress;
        assert(statuses[i] == Status::InProgress);
    }
}

/// A container's owner from the owners of its live committed owned descendants:
/// none -> unassigned; only ai -> ai; only human -> human; both -> mixed.
pub open spec fn owner_rollup_spec(owners: Seq<OwnerKind>) -> OwnerRollup {
    let ai = owners.contains(OwnerKind::Ai);
    let human = owners.contains(OwnerKind::Human);
    if ai && human {
        OwnerRollup::Mixed
    } else if ai {
        OwnerRollup::Ai
    } else if human {
        OwnerRollup::Human
    } else {
        OwnerRollup::Unassigned
    }
}

/// Classify a container's owner from the owner kinds of its live committed
/// descendants that have one.
pub fn owner_rollup_from(owners: &[OwnerKind]) -> (r: OwnerRollup)
    ensures
        r == owner_rollup_spec(owners@),
{
    let mut ai = false;
    let mut human = false;
    let mut i: usize = 0;
    while i < owners.len()
        invariant
            i <= owners.len(),
            ai == owners@.take(i as int).contains(OwnerKind::Ai),
            human == owners@.take(i as int).contains(OwnerKind::Human),
        decreases owners.len() - i,
    {
        proof {
            let t = owners@.take(i + 1);
            let p = owners@.take(i as int);
            assert(t =~= p.push(owners@[i as int]));
            assert forall|x: OwnerKind| #[trigger] t.contains(x) == (p.contains(x) || owners@[i as int]
                == x) by {
                if t.contains(x) {
                    let k = choose|k: int| 0 <= k < t.len() && t[k] == x;
                    if k < i {
                        assert(p[k] == x);
                    }
                }
                if p.contains(x) {
                    let k = choose|k: int| 0 <= k < p.len() && p[k] == x;
                    assert(t[k] == x);
                }
                if owners@[i as int] == x {
                    assert(t[i as int] == x);
                }
            }
        }
        match owners[i] {
            OwnerKind::Ai => {
                ai = true;
            },
            OwnerKind::Human => {
                human = true;
            },
        }
        i = i + 1;
    }
    assert(owners@.take(owners.len() as int) =~= owners@);
    if ai && human {
        OwnerRollup::Mixed
    } else if ai {
        OwnerRollup::Ai
    } else if human {
        OwnerRollup::Human
    } else {
        OwnerRollup::Unassigned
    }
}

// ---- lineage direction ------------------------------------------------------

/// Direction for `evolve graph`.
#[derive(Debug, Clone, Copy, PartialEq, Eq, Structural)]
pub enum LineageDirection {
    Ancestors,
    Descendants,
    Both,
}

/// The wire name of each direction.
pub open spec fn direction_name(d: LineageDirection) -> Seq<char> {
    match d {
        LineageDirection::Ancestors => "ancestors"@,
        LineageDirection::Descendants => "descendants"@,
        LineageDirection::Both => "both"@,
    }
}

impl LineageDirection {
    /// Parse `ancestors`, `descendants` or `both`.
    pub fn parse(s: &str) -> (r: Result<LineageDirection, HavenError>)
        ensures
            match r {
                Ok(d) => direction_name(d) == s@,
                Err(e) => (forall|d: LineageDirection| direction_name(d) != s@) && invalid_with(
                    e,
                    "unknown direction "@ + debug_quoted_spec(s@) + " (ancestors|descendants|both)"@,
                ),
            },
    {
        if str_eq(s, "ancestors") {
            return Ok(LineageDirection::Ancestors);
        }
        if str_eq(s, "descendants") {
            return Ok(LineageDirection::Descendants);
        }
        if str_eq(s, "both") {
            return Ok(LineageDirection::Both);
        }
        let mut msg = string_of("unknown direction ");
        let q = debug_quoted(s);
        push_str(&mut msg, q.as_str());
        push_str(&mut msg, " (ancestors|descendants|both)");
        proof {
            assert forall|d: LineageDirection| direction_name(d) != s@ by {
                match d {
                    LineageDirection::Ancestors => {},
                    LineageDirection::Descendants => {},
                    LineageDirection::Both => {},
                }
            }
        }
        Err(HavenError::Invalid(msg))
    }
}

// ---- dispatch wording and ranking -------------------------------------------

/// The dispatch ranking: highest priority band first (unprioritised last), then
/// `sort_key` (unkeyed last), then creation time and id. Deadlines deliberately
/// do not take part.
pub const ORDER: &'static str = " ORDER BY n.priority IS NULL, n.priority, n.sort_key IS NULL, n.sort_key, n.created_at, n.id";

/// Default size of the dispatch frontier on user-facing surfaces.
pub const DEFAULT_NEXT_LIMIT: i64 = 50;

/// Default candidate count of the dispatch summary.
pub const DEFAULT_DISPATCH_LIMIT: i64 = 5;

/// Compact context for a parent, group, blocker or scope in a dispatch summary.
#[derive(Debug, Clone, PartialEq, Eq)]
pub struct DispatchContextItem {
    pub reference: String,
    pub title: String,
    pub node_type: NodeType,
}

/// Why a candidate is dispatchable: the base conditions, plus the owner and
/// scope conditions when those filters are set.
pub open spec fn eligibility_spec(owner: bool, scope: bool) -> Seq<char> {
    "committed, ready, unblocked, not waiting"@ + (if owner {
        ", owner matched"@
    } else {
        Seq::empty()
    }) + (if scope {
        ", inside scope"@
    } else {
        Seq::empty()
    })
}

/// The eligibility line of a dispatch candidate.
pub fn dispatch_eligibility(owner: Option<OwnerKind>, scope: Option<&DispatchContextItem>) -> (r:
    String)
    ensures
        r@ == eligibility_spec(owner is Some, scope is Some),
{
    let mut r = string_of("committed, ready, unblocked, not waiting");
    if owner.is_some() {
        push_str(&mut r, ", owner matched");
    }
    if scope.is_some() {
        push_str(&mut r, ", inside scope");
    }
    assert(r@ =~= eligibility_spec(owner is Some, scope is Some));
    r
}

/// Why the top candidate is recommended, naming the owner and scope filters.
pub open spec fn reason_spec(owner: Option<OwnerKind>, scope: Option<Seq<char>>) -> Seq<char> {
    match (owner, scope) {
        (Some(o), Some(s)) => "highest-ranked dispatchable item for owner "@ + owner_kind_name(o)
            + " under "@ + s,
        (Some(o), None) => "highest-ranked dispatchable item for owner "@ + owner_kind_name(o),
        (None, Some(s)) => "highest-ranked dispatchable item under "@ + s,
        (None, None) => "highest-ranked dispatchable item"@,
    }
}

/// The reason line of a dispatch recommendation.
pub fn recommendation_reason(owner: Option<OwnerKind>, scope: Option<&DispatchContextItem>) -> (r:
    String)
    ensures
        r@ == reason_spec(
            owner,
            match scope {
                Some(s) => Some(s.reference@),
                None => None,
            },
        ),
{
    match (owner, scope) {
        (Some(o), Some(s)) => {
            let mut r = string_of("highest-ranked dispatchable item for owner ");
            push_str(&mut r, o.as_str());
            push_str(&mut r, " under ");
            push_str(&mut r, s.reference.as_str());
            r
        },
        (Some(o), None) => {
            let mut r = string_of("highest-ranked dispatchable item for owner ");
            push_str(&mut r, o.as_str());
            r
        },
        (None, Some(s)) => {
            let mut r = string_of("highest-ranked dispatchable item under ");
            push_str(&mut r, s.reference.as_str());
            r
        },
        (None, None) => string_of("highest-ranked dispatchable item"),
    }
}

// ---- grooming pressure ------------------------------------------------------

/// At or above this many untriaged floaters or stale items, grooming is nudged.
pub const GROOMING_NUDGE_THRESHOLD: usize = 5;

/// Items untouched for this many days count as stale.
pub const GROOMING_STALE_DAYS: i64 = 14;

/// The grooming nudge for these counts, present only at or above the threshold.
pub open spec fn nudge_spec(untriaged: int, stale: int) -> Option<Seq<char>> {
    if untriaged >= GROOMING_NUDGE_THRESHOLD || stale >= GROOMING_NUDGE_THRESHOLD {
        Some(
            nat_digits(untriaged as nat) + " untriaged floater(s), "@ + nat_digits(stale as nat)
                + " stale item(s) — groom (workflow 3) before planning"@,
        )
    } else {
        None
    }
}

/// The grooming nudge for a project with this many untriaged floaters and stale items.
pub fn grooming_nudge(untriaged: usize, stale: usize) -> (r: Option<String>)
    ensures
        match r {
            Some(s) => nudge_spec(untriaged as int, stale as int) == Some(s@),
            None => nudge_spec(untriaged as int, stale as int) is None,
        },
{
    if untriaged >= GROOMING_NUDGE_THRESHOLD || stale >= GROOMING_NUDGE_THRESHOLD {
        let mut s = String::new();
        push_usize(&mut s, untriaged);
        push_str(&mut s, " untriaged floater(s), ");
        push_usize(&mut s, stale);
        push_str(&mut s, " stale item(s) — groom (workflow 3) before planning");
        Some(s)
    } else {
        None
    }
}

} // verus!

verus! {

// ---- the project graph ------------------------------------------------------

/// One structural edge of a project graph as a `{kind, from, to}` ref triple.
#[derive(Debug, Clone)]
pub struct GraphEdge {
    pub kind: EdgeKind,
    pub from: String,
    pub to: String,
}

/// One lineage link of a project graph: `{event, from, to}`.
#[derive(Debug, Clone)]
pub struct LineageLink {
    pub event: String,
    pub from: String,
    pub to: String,
}

/// The whole project work graph: every node, a flat edge list and optionally
/// the lineage links.
#[derive(Debug)]
pub struct ProjectGraph {
    pub project: String,
    pub nodes: Vec<Item>,
    pub edges: Vec<GraphEdge>,
    pub lineage: Vec<LineageLink>,
    pub grooming_nudge: Option<String>,
}

/// A node that is neither superseded nor archived.
pub open spec fn is_live(n: Item) -> bool {
    !n.status.is_dead_spec()
}

/// The live nodes, in order.
pub open spec fn live_nodes(ns: Seq<Item>) -> Seq<Item> {
    ns.filter(|n: Item| is_live(n))
}

/// The refs of the live nodes among `ns[..n]`.
pub open spec fn live_refs_upto(ns: Seq<Item>, n: int) -> Set<Seq<char>> {
    Set::new(|r: Seq<char>| exists|i: int| 0 <= i < n && is_live(#[trigger] ns[i]) && ns[i].reference@ == r)
}

/// The refs of the live nodes.
pub open spec fn live_refs(ns: Seq<Item>) -> Set<Seq<char>> {
    live_refs_upto(ns, ns.len() as int)
}

/// The edges both of whose ends are live nodes, in order.
pub open spec fn live_edges(ns: Seq<Item>, es: Seq<GraphEdge>) -> Seq<GraphEdge> {
    es.filter(|e: GraphEdge| live_refs(ns).contains(e.from@) && live_refs(ns).contains(e.to@))
}

/// The lineage links both of whose ends are live nodes, in order.
pub open spec fn live_links(ns: Seq<Item>, ls: Seq<LineageLink>) -> Seq<LineageLink> {
    ls.filter(|l: LineageLink| live_refs(ns).contains(l.from@) && live_refs(ns).contains(l.to@))
}

proof fn lemma_filter_push<A>(s: Seq<A>, i: int, p: spec_fn(A) -> bool)
    requires
        0 <= i < s.len(),
    ensures
        s.take(i + 1).filter(p) == (if p(s[i]) {
            s.take(i).filter(p).push(s[i])
        } else {
            s.take(i).filter(p)
        }),
{
    reveal(Seq::filter);
    assert(s.take(i + 1).drop_last() =~= s.take(i));
}

/// The refs of the live nodes of `nodes`.
fn collect_live_refs(nodes: &Vec<Item>) -> (r: Vec<String>)
    ensures
        forall|x: Seq<char>| #[trigger] strings_view(r@).contains(x) <==> live_refs(nodes@).contains(x),
{
    let mut keep: Vec<String> = Vec::new();
    let mut i: usize = 0;
    while i < nodes.len()
        invariant
            i <= nodes.len(),
            forall|x: Seq<char>| #[trigger] strings_view(keep@).contains(x) <==> live_refs_upto(nodes@, i as int).contains(x),
        decreases nodes.len() - i,
    {
        let ghost before = strings_view(keep@);
        if !nodes[i].status.is_dead() {
            keep.push(nodes[i].reference.clone());
            proof {
                let after = strings_view(keep@);
                assert(after =~= before.push(nodes@[i as int].reference@));
                assert forall|x: Seq<char>| #[trigger] after.contains(x) <==> live_refs_upto(nodes@, i + 1).contains(x) by {
                    if after.contains(x) {
                        let k = choose|k: int| 0 <= k < after.len() && after[k] == x;
                        if k < before.len() {
                            assert(before[k] == x);
                            assert(before.contains(x));
                        } else {
                            assert(is_live(nodes@[i as int]));
                        }
                    }
                    if live_refs_upto(nodes@, i + 1).contains(x) {
                        let j = choose|j: int| 0 <= j < i + 1 && is_live(#[trigger] nodes@[j]) && nodes@[j].reference@ == x;
                        if j < i {
                            assert(live_refs_upto(nodes@, i as int).contains(x));
                            assert(before.contains(x));
                            let k = choose|k: int| 0 <= k < before.len() && before[k] == x;
                            assert(after[k] == x);
                        } else {
                            assert(after[before.len() as int] == x);
                        }
                    }
                }
            }
        } else {
            proof {
                assert forall|x: Seq<char>| #[trigger] before.contains(x) <==> live_refs_upto(nodes@, i + 1).contains(x) by {
                    if live_refs_upto(nodes@, i + 1).contains(x) {
                        let j = choose|j: int| 0 <= j < i + 1 && is_live(#[trigger] nodes@[j]) && nodes@[j].reference@ == x;
                        assert(j < i);
                        assert(live_refs_upto(nodes@, i as int).contains(x));
                    }
                    if before.contains(x) {
                        assert(live_refs_upto(nodes@, i as int).contains(x));
                        let j = choose|j: int| 0 <= j < i && is_live(#[trigger] nodes@[j]) && nodes@[j].reference@ == x;
                        assert(live_refs_upto(nodes@, i + 1).contains(x));
                    }
                }
            }
        }
        i = i + 1;
    }
    keep
}

/// Keep the live nodes of `nodes`, in order.
fn retain_live(nodes: Vec<Item>) -> (r: Vec<Item>)
    ensures
        r@ == live_nodes(nodes@),
{
    let ghost orig = nodes@;
    let ghost p = |n: Item| is_live(n);
    let len = nodes.len();
    let mut rest = nodes;
    let mut out: Vec<Item> = Vec::new();
    let mut k: usize = 0;
    while rest.len() > 0
        invariant
            k <= orig.len(),
            orig.len() == len,
            rest.len() + k == orig.len(),
            rest@ == orig.skip(k as int),
            out@ == orig.take(k as int).filter(p),
            p == (|n: Item| is_live(n)),
        decreases rest.len(),
    {
        proof {
            lemma_filter_push(orig, k as int, p);
            assert(orig.skip(k as int)[0] == orig[k as int]);
            assert(orig.skip(k as int).remove(0) =~= orig.skip(k + 1));
        }
        let n = rest.remove(0);
        if !n.status.is_dead() {
            out.push(n);
        }
        k = k + 1;
    }
    assert(orig.take(orig.len() as int) =~= orig);
    out
}

/// Keep the edges both of whose ends are in `keep`, in order.
fn retain_edges(edges: &Vec<GraphEdge>, keep: &Vec<String>, Ghost(refs): Ghost<Set<Seq<char>>>) -> (r: Vec<GraphEdge>)
    requires
        forall|x: Seq<char>| #[trigger] strings_view(keep@).contains(x) <==> refs.contains(x),
    ensures
        r@ == edges@.filter(|e: GraphEdge| refs.contains(e.from@) && refs.contains(e.to@)),
{
    let ghost p = |e: GraphEdge| refs.contains(e.from@) && refs.contains(e.to@);
    let mut out: Vec<GraphEdge> = Vec::new();
    let mut i: usize = 0;
    while i < edges.len()
        invariant
            i <= edges.len(),
            forall|x: Seq<char>| #[trigger] strings_view(keep@).contains(x) <==> refs.contains(x),
            p == (|e: GraphEdge| refs.contains(e.from@) && refs.contains(e.to@)),
            out@ == edges@.take(i as int).filter(p),
        decreases edges.len() - i,
    {
        proof {
            lemma_filter_push(edges@, i as int, p);
        }
        let e = &edges[i];
        if crate::text::contains_str(keep, e.from.as_str()) && crate::text::contains_str(keep, e.to.as_str()) {
            out.push(GraphEdge { kind: e.kind, from: e.from.clone(), to: e.to.clone() });
        }
        i = i + 1;
    }
    assert(edges@.take(edges.len() as int) =~= edges@);
    out
}

/// Keep the lineage links both of whose ends are in `keep`, in order.
fn retain_links(links: &Vec<LineageLink>, keep: &Vec<String>, Ghost(refs): Ghost<Set<Seq<char>>>) -> (r: Vec<LineageLink>)
    requires
        forall|x: Seq<char>| #[trigger] strings_view(keep@).contains(x) <==> refs.contains(x),
    ensures
        r@ == links@.filter(|l: LineageLink| refs.contains(l.from@) && refs.contains(l.to@)),
{
    let ghost p = |l: LineageLink| refs.contains(l.from@) && refs.contains(l.to@);
    let mut out: Vec<LineageLink> = Vec::new();
    let mut i: usize = 0;
    while i < links.len()
        invariant
            i <= links.len(),
            forall|x: Seq<char>| #[trigger] strings_view(keep@).contains(x) <==> refs.contains(x),
            p == (|l: LineageLink| refs.contains(l.from@) && refs.contains(l.to@)),
            out@ == links@.take(i as int).filter(p),
        decreases links.len() - i,
    {
        proof {
            lemma_filter_push(links@, i as int, p);
        }
        let l = &links[i];
        if crate::text::contains_str(keep, l.from.as_str()) && crate::text::contains_str(keep, l.to.as_str()) {
            out.push(LineageLink { event: l.event.clone(), from: l.from.clone(), to: l.to.clone() });
        }
        i = i + 1;
    }
    assert(links@.take(links.len() as int) =~= links@);
    out
}

impl ProjectGraph {
    /// Drop archived and superseded nodes and every edge or lineage link that
    /// would then dangle onto a removed node: the live-only view of the graph.
    pub fn live_only(self) -> (g: ProjectGraph)
        ensures
            g.project == self.project,
            g.grooming_nudge == self.grooming_nudge,
            g.nodes@ == live_nodes(self.nodes@),
            g.edges@ == live_edges(self.nodes@, self.edges@),
            g.lineage@ == live_links(self.nodes@, self.lineage@),
    {
        let ProjectGraph { project, nodes, edges, lineage, grooming_nudge } = self;
        let keep = collect_live_refs(&nodes);
        let ghost refs = live_refs(nodes@);
        let edges = retain_edges(&edges, &keep, Ghost(refs));
        let lineage = retain_links(&lineage, &keep, Ghost(refs));
        let nodes = retain_live(nodes);
        ProjectGraph { project, nodes, edges, lineage, grooming_nudge }
    }
}

} // verus!

verus! {

// ---- laws -------------------------------------------------------------------

proof fn lemma_filter_idempotent<A>(s: Seq<A>, p: spec_fn(A) -> bool)
    ensures
        s.filter(p).filter(p) == s.filter(p),
    decreases s.len(),
{
    reveal(Seq::filter);
    if s.len() > 0 {
        lemma_filter_idempotent(s.drop_last(), p);
        let f = s.drop_last().filter(p);
        if p(s.last()) {
            assert(f.push(s.last()).drop_last() =~= f);
        }
    }
}

proof fn lemma_filter_member<A>(s: Seq<A>, p: spec_fn(A) -> bool, x: A)
    ensures
        s.filter(p).contains(x) <==> (s.contains(x) && p(x)),
    decreases s.len(),
{
    reveal(Seq::filter);
    if s.len() > 0 {
        lemma_filter_member(s.drop_last(), p, x);
        let f = s.drop_last().filter(p);
        if s.contains(x) {
            let k = choose|k: int| 0 <= k < s.len() && s[k] == x;
            if k < s.len() - 1 {
                assert(s.drop_last()[k] == x);
            }
        }
        if s.drop_last().contains(x) {
            let k = choose|k: int| 0 <= k < s.drop_last().len() && s.drop_last()[k] == x;
            assert(s[k] == x);
        }
        if p(s.last()) {
            if f.push(s.last()).contains(x) {
                let k = choose|k: int| 0 <= k < f.push(s.last()).len() && f.push(s.last())[k] == x;
                if k < f.len() {
                    assert(f[k] == x);
                }
            }
            if f.contains(x) {
                let k = choose|k: int| 0 <= k < f.len() && f[k] == x;
                assert(f.push(s.last())[k] == x);
            }
            assert(f.push(s.last())[f.len() as int] == s.last());
        }
    }
}

proof fn lemma_live_refs_stable(ns: Seq<Item>)
    ensures
        live_refs(live_nodes(ns)) == live_refs(ns),
{
    let p = |n: Item| is_live(n);
    let f = ns.filter(p);
    assert forall|x: Seq<char>| live_refs(f).contains(x) == live_refs(ns).contains(x) by {
        if live_refs(f).contains(x) {
            let i = choose|i: int| 0 <= i < f.len() && is_live(#[trigger] f[i]) && f[i].reference@ == x;
            assert(f.contains(f[i]));
            lemma_filter_member(ns, p, f[i]);
            let j = choose|j: int| 0 <= j < ns.len() && ns[j] == f[i];
            assert(is_live(ns[j]) && ns[j].reference@ == x);
        }
        if live_refs(ns).contains(x) {
            let j = choose|j: int| 0 <= j < ns.len() && is_live(#[trigger] ns[j]) && ns[j].reference@ == x;
            assert(ns.contains(ns[j]));
            lemma_filter_member(ns, p, ns[j]);
            let i = choose|i: int| 0 <= i < f.len() && f[i] == ns[j];
            assert(is_live(f[i]) && f[i].reference@ == x);
        }
    }
    assert(live_refs(f) =~= live_refs(ns));
}

/// The live-only view is idempotent: taking it twice gives what taking it once gives.
pub proof fn lemma_live_only_idempotent(ns: Seq<Item>, es: Seq<GraphEdge>, ls: Seq<LineageLink>)
    ensures
        live_nodes(live_nodes(ns)) == live_nodes(ns),
        live_edges(live_nodes(ns), live_edges(ns, es)) == live_edges(ns, es),
        live_links(live_nodes(ns), live_links(ns, ls)) == live_links(ns, ls),
{
    lemma_filter_idempotent(ns, |n: Item| is_live(n));
    lemma_live_refs_stable(ns);
    let pe = |e: GraphEdge| live_refs(ns).contains(e.from@) && live_refs(ns).contains(e.to@);
    let pl = |l: LineageLink| live_refs(ns).contains(l.from@) && live_refs(ns).contains(l.to@);
    lemma_filter_idempotent(es, pe);
    lemma_filter_idempotent(ls, pl);
    assert((|e: GraphEdge| live_refs(live_nodes(ns)).contains(e.from@) && live_refs(live_nodes(ns)).contains(e.to@)) =~= pe);
    assert((|l: LineageLink| live_refs(live_nodes(ns)).contains(l.from@) && live_refs(live_nodes(ns)).contains(l.to@)) =~= pl);
}

/// The live-only view holds no dead node and nothing dangling: every edge and
/// lineage link it keeps joins two nodes it keeps.
pub proof fn lemma_live_only_closed(ns: Seq<Item>, es: Seq<GraphEdge>, ls: Seq<LineageLink>)
    ensures
        forall|n: Item| #[trigger] live_nodes(ns).contains(n) ==> is_live(n) && ns.contains(n),
        forall|e: GraphEdge| #[trigger] live_edges(ns, es).contains(e) ==> es.contains(e)
            && live_refs(live_nodes(ns)).contains(e.from@) && live_refs(live_nodes(ns)).contains(e.to@),
        forall|l: LineageLink| #[trigger] live_links(ns, ls).contains(l) ==> ls.contains(l)
            && live_refs(live_nodes(ns)).contains(l.from@) && live_refs(live_nodes(ns)).contains(l.to@),
{
    lemma_live_refs_stable(ns);
    let p = |n: Item| is_live(n);
    let pe = |e: GraphEdge| live_refs(ns).contains(e.from@) && live_refs(ns).contains(e.to@);
    let pl = |l: LineageLink| live_refs(ns).contains(l.from@) && live_refs(ns).contains(l.to@);
    assert forall|n: Item| #[trigger] live_nodes(ns).contains(n) implies is_live(n) && ns.contains(n) by {
        lemma_filter_member(ns, p, n);
    }
    assert forall|e: GraphEdge| #[trigger] live_edges(ns, es).contains(e) implies es.contains(e)
        && live_refs(live_nodes(ns)).contains(e.from@) && live_refs(live_nodes(ns)).contains(e.to@) by {
        lemma_filter_member(es, pe, e);
    }
    assert forall|l: LineageLink| #[trigger] live_links(ns, ls).contains(l) implies ls.contains(l)
        && live_refs(live_nodes(ns)).contains(l.from@) && live_refs(live_nodes(ns)).contains(l.to@) by {
        lemma_filter_member(ls, pl, l);
    }
}

/// A node of `ns` with reference `r` that is neither archived nor superseded.
pub open spec fn has_undead_node(ns: Seq<Item>, r: Seq<char>) -> bool {
    exists|i: int|
        0 <= i < ns.len() && #[trigger] ns[i].reference@ == r && ns[i].status != Status::Archived
            && ns[i].status != Status::Superseded
}

/// The live-only view drops exactly the archived and superseded nodes: a node
/// is kept if and only if it is in the graph and its status is neither
/// `Archived` nor `Superseded`; and an edge is kept if and only if it is in the
/// graph and both of its ends are refs of such nodes (so no kept edge dangles
/// onto a dropped node).
pub proof fn lemma_live_only_drops_exactly_the_dead(ns: Seq<Item>, es: Seq<GraphEdge>)
    ensures
        forall|n: Item| #[trigger]
            live_nodes(ns).contains(n) <==> (ns.contains(n) && n.status != Status::Archived && n.status
                != Status::Superseded),
        forall|e: GraphEdge| #[trigger]
            live_edges(ns, es).contains(e) <==> (es.contains(e) && has_undead_node(ns, e.from@)
                && has_undead_node(ns, e.to@)),
{
    let p = |n: Item| is_live(n);
    assert forall|n: Item| #[trigger]
        live_nodes(ns).contains(n) <==> (ns.contains(n) && n.status != Status::Archived && n.status
            != Status::Superseded) by {
        lemma_filter_member(ns, p, n);
    }
    assert forall|r: Seq<char>| #[trigger] live_refs(ns).contains(r) <==> has_undead_node(ns, r) by {
        if live_refs(ns).contains(r) {
            let i = choose|i: int| 0 <= i < ns.len() && is_live(#[trigger] ns[i]) && ns[i].reference@ == r;
            assert(ns[i].reference@ == r);
        }
        if has_undead_node(ns, r) {
            let i = choose|i: int|
                0 <= i < ns.len() && #[trigger] ns[i].reference@ == r && ns[i].status != Status::Archived
                    && ns[i].status != Status::Superseded;
            assert(is_live(ns[i]));
        }
    }
    let pe = |e: GraphEdge| live_refs(ns).contains(e.from@) && live_refs(ns).contains(e.to@);
    assert forall|e: GraphEdge| #[trigger]
        live_edges(ns, es).contains(e) <==> (es.contains(e) && has_undead_node(ns, e.from@)
            && has_undead_node(ns, e.to@)) by {
        lemma_filter_member(es, pe, e);
    }
}

} // verus!

verus! {

// ---- the dispatch summary ---------------------------------------------------

/// Artifact metadata shown in a dispatch summary: no ids, hashes, revisions or
/// metadata, so dispatch stays lean.
#[derive(Debug, Clone)]
pub struct DispatchArtifact {
    pub role: ArtifactRole,
    pub kind: ArtifactKind,
    pub path: Option<String>,
    pub uri: Option<String>,
    pub title: Option<String>,
    pub excerpt: Option<String>,
}

impl From<Artifact> for DispatchArtifact {
    fn from(a: Artifact) -> (r: DispatchArtifact) {
        DispatchArtifact {
            role: a.role,
            kind: a.kind,
            path: a.path,
            uri: a.uri,
            title: a.title,
            excerpt: a.excerpt,
        }
    }
}

impl vstd::std_specs::convert::FromSpecImpl<Artifact> for DispatchArtifact {
    open spec fn obeys_from_spec() -> bool {
        true
    }

    open spec fn from_spec(a: Artifact) -> DispatchArtifact {
        DispatchArtifact {
            role: a.role,
            kind: a.kind,
            path: a.path,
            uri: a.uri,
            title: a.title,
            excerpt: a.excerpt,
        }
    }
}

/// One candidate of a dispatch summary: the ranked `next` row plus the targeted
/// context that would otherwise take several reads.
#[derive(Debug, Clone)]
pub struct DispatchCandidate {
    /// 1-based position in the dispatch ranking.
    pub rank: usize,
    pub reference: String,
    pub title: String,
    pub node_type: NodeType,
    pub status: Status,
    pub owner_kind: Option<OwnerKind>,
    pub committed: bool,
    pub priority: Option<i64>,
    pub done_looks_like: Option<String>,
    pub why: Option<String>,
    pub body: Option<String>,
    pub parents: Vec<DispatchContextItem>,
    pub groups: Vec<DispatchContextItem>,
    pub blocks: Vec<DispatchContextItem>,
    pub artifacts: Vec<DispatchArtifact>,
    pub context_pack: Option<ContextPack>,
    pub context_pack_clash: Option<Vec<String>>,
    pub eligibility: String,
}

/// The top-ranked dispatch candidate and why it is the recommendation.
#[derive(Debug, Clone)]
pub struct DispatchRecommendation {
    pub reference: String,
    pub reason: String,
}

/// The dispatch-facing projection of an artifact.
pub open spec fn dispatch_artifact_spec(a: Artifact) -> DispatchArtifact {
    DispatchArtifact { role: a.role, kind: a.kind, path: a.path, uri: a.uri, title: a.title, excerpt: a.excerpt }
}

/// The candidate at 0-based position `idx` of the dispatch ranking, built from
/// its hydrated item, the context of its parents, groups and blocked items, and
/// its artifacts; `owner` and `scope` are what the dispatch was asked for.
pub fn dispatch_candidate(
    idx: usize,
    item: Item,
    parents: Vec<DispatchContextItem>,
    groups: Vec<DispatchContextItem>,
    blocks: Vec<DispatchContextItem>,
    artifacts: Vec<Artifact>,
    owner: Option<OwnerKind>,
    scope: Option<&DispatchContextItem>,
) -> (c: DispatchCandidate)
    requires
        idx < usize::MAX,
    ensures
        c.rank == idx + 1,
        c.reference == item.reference && c.title == item.title && c.node_type == item.node_type,
        c.status == item.status && c.owner_kind == item.owner_kind && c.committed == item.committed,
        c.priority == item.priority && c.done_looks_like == item.done_looks_like && c.why == item.why,
        c.body == item.body && c.context_pack == item.context_pack && c.context_pack_clash == item.context_pack_clash,
        c.parents == parents && c.groups == groups && c.blocks == blocks,
        c.artifacts@ == artifacts@.map_values(|a: Artifact| dispatch_artifact_spec(a)),
        c.eligibility@ == eligibility_spec(owner is Some, scope is Some),
{
    let mut arts: Vec<DispatchArtifact> = Vec::new();
    let mut rest = artifacts;
    let ghost all = rest@;
    let n0: usize = rest.len();
    let mut k: usize = 0;
    while rest.len() > 0
        invariant
            k <= all.len(),
            all.len() == n0,
            rest@ == all.skip(k as int),
            arts@ == all.take(k as int).map_values(|a: Artifact| dispatch_artifact_spec(a)),
        decreases rest.len(),
    {
        proof {
            assert(all.skip(k as int)[0] == all[k as int]);
            assert(all.skip(k as int).remove(0) =~= all.skip(k + 1));
        }
        let a = rest.remove(0);
        let d = DispatchArtifact {
            role: a.role,
            kind: a.kind,
            path: a.path,
            uri: a.uri,
            title: a.title,
            excerpt: a.excerpt,
        };
        arts.push(d);
        proof {
            assert(arts@ =~= all.take(k + 1).map_values(|a: Artifact| dispatch_artifact_spec(a)));
        }
        k = k + 1;
    }
    proof {
        assert(all.take(k as int) =~= all);
    }
    let eligibility = dispatch_eligibility(owner, scope);
    DispatchCandidate {
        rank: idx + 1,
        reference: item.reference,
        title: item.title,
        node_type: item.node_type,
        status: item.status,
        owner_kind: item.owner_kind,
        committed: item.committed,
        priority: item.priority,
        done_looks_like: item.done_looks_like,
        why: item.why,
        body: item.body,
        parents,
        groups,
        blocks,
        artifacts: arts,
        context_pack: item.context_pack,
        context_pack_clash: item.context_pack_clash,
        eligibility,
    }
}

/// Whether a dispatch summary carries the queue's explanation: when asked for,
/// and always when there is no candidate (an empty queue needs explaining).
pub fn explain_wanted(include_explain: bool, candidates: usize) -> (r: bool)
    ensures
        r == (include_explain || candidates == 0),
{
    include_explain || candidates == 0
}

/// The candidate count of a dispatch summary: the requested limit (default
/// [`DEFAULT_DISPATCH_LIMIT`]), never negative.
pub fn dispatch_limit(limit: Option<i64>) -> (r: i64)
    ensures
        r == (match limit {
            Some(l) => if l < 0 {
                0
            } else {
                l
            },
            None => DEFAULT_DISPATCH_LIMIT,
        }),
{
    let l = match limit {
        Some(l) => l,
        None => DEFAULT_DISPATCH_LIMIT,
    };
    if l < 0 {
        0
    } else {
        l
    }
}

/// The recommendation of a dispatch summary: the first candidate, with the
/// reason naming the owner and scope filters; none when there is no candidate.
pub fn recommend(
    candidates: &[DispatchCandidate],
    owner: Option<OwnerKind>,
    scope: Option<&DispatchContextItem>,
) -> (r: Option<DispatchRecommendation>)
    ensures
        r is Some <==> candidates@.len() > 0,
        r matches Some(rec) ==> rec.reference@ == candidates@[0].reference@ && rec.reason@
            == reason_spec(
            owner,
            match scope {
                Some(s) => Some(s.reference@),
                None => None,
            },
        ),
{
    if candidates.len() == 0 {
        return None;
    }
    let reference = candidates[0].reference.clone();
    Some(DispatchRecommendation { reference, reason: recommendation_reason(owner, scope) })
}

/// `a - b`, clamped to the `i64` range.
pub open spec fn saturating_diff(a: int, b: int) -> int {
    if a - b < i64::MIN {
        i64::MIN as int
    } else if a - b > i64::MAX {
        i64::MAX as int
    } else {
        a - b
    }
}

/// Ready items that are dispatchable for some owner but not the requested one;
/// zero when no owner was requested.
pub fn owner_mismatch(owner: Option<OwnerKind>, dispatchable: i64, dispatchable_any_owner: i64) -> (r:
    i64)
    ensures
        r == (if owner is Some {
            saturating_diff(dispatchable_any_owner as int, dispatchable as int)
        } else {
            0
        }),
{
    if owner.is_none() {
        return 0;
    }
    let a = dispatchable_any_owner;
    let b = dispatchable;
    if b >= 0 {
        if a < i64::MIN + b {
            i64::MIN
        } else {
            a - b
        }
    } else {
        if a > i64::MAX + b {
            i64::MAX
        } else {
            a - b
        }
    }
}

/// The one-line diagnosis of a dispatch queue, from its counts: the first that
/// applies of dispatchable work, an owner mismatch, open dependencies, waits,
/// committed work not yet ready, and ready work not yet committed.
pub open spec fn hint_spec(
    dispatchable: int,
    owner_mismatch: int,
    blocked_by_dependency: int,
    waiting: int,
    committed_not_ready: int,
    ready_but_uncommitted: int,
) -> Seq<char> {
    if dispatchable > 0 {
        "queue has dispatchable items"@
    } else if owner_mismatch > 0 {
        "ready items exist, but not for the requested owner"@
    } else if blocked_by_dependency > 0 {
        "ready items are blocked by open dependencies"@
    } else if waiting > 0 {
        "ready items are waiting on a human, dependency, or external event"@
    } else if committed_not_ready > 0 {
        "committed items exist but are not ready yet"@
    } else if ready_but_uncommitted > 0 {
        "ready items exist but are still uncommitted"@
    } else {
        "no ready committed work found"@
    }
}

/// The hint line of a queue explanation.
pub fn explain_hint(
    dispatchable: i64,
    owner_mismatch: i64,
    blocked_by_dependency: i64,
    waiting: i64,
    committed_not_ready: i64,
    ready_but_uncommitted: i64,
) -> (r: &'static str)
    ensures
        r@ == hint_spec(
            dispatchable as int,
            owner_mismatch as int,
            blocked_by_dependency as int,
            waiting as int,
            committed_not_ready as int,
            ready_but_uncommitted as int,
        ),
{
    if dispatchable > 0 {
        "queue has dispatchable items"
    } else if owner_mismatch > 0 {
        "ready items exist, but not for the requested owner"
    } else if blocked_by_dependency > 0 {
        "ready items are blocked by open dependencies"
    } else if waiting > 0 {
        "ready items are waiting on a human, dependency, or external event"
    } else if committed_not_ready > 0 {
        "committed items exist but are not ready yet"
    } else if ready_but_uncommitted > 0 {
        "ready items exist but are still uncommitted"
    } else {
        "no ready committed work found"
    }
}

// ---- grooming pressure ------------------------------------------------------

/// Grooming pressure for a project: the untriaged and stale counts and the
/// nudge, present once either reaches [`GROOMING_NUDGE_THRESHOLD`].
#[derive(Debug, Clone)]
pub struct GroomingPressure {
    pub untriaged: usize,
    pub stale: usize,
    pub nudge: Option<String>,
}

impl GroomingPressure {
    /// The pressure of a project with these counts.
    pub fn from_counts(untriaged: usize, stale: usize) -> (g: GroomingPressure)
        ensures
            g.untriaged == untriaged,
            g.stale == stale,
            match g.nudge {
                Some(s) => nudge_spec(untriaged as int, stale as int) == Some(s@),
                None => nudge_spec(untriaged as int, stale as int) is None,
            },
    {
        GroomingPressure { untriaged, stale, nudge: grooming_nudge(untriaged, stale) }
    }
}

// ---- the bounded graph ------------------------------------------------------

/// A bounded page of the project graph: totals over the visible graph, and only
/// the edges and links among the nodes of the page.
#[derive(Debug)]
pub struct ProjectGraphPage {
    pub project: String,
    pub nodes: Vec<Item>,
    pub edges: Vec<GraphEdge>,
    pub lineage: Vec<LineageLink>,
    pub node_total: usize,
    pub edge_total: usize,
    pub lineage_total: usize,
    pub grooming_nudge: Option<String>,
}

/// The first `n` elements of `s` (all of them when there are fewer).
pub open spec fn first_n<A>(s: Seq<A>, n: int) -> Seq<A> {
    if n <= s.len() {
        s.subrange(0, n)
    } else {
        s
    }
}

/// The refs of `ns`.
pub open spec fn refs_of(ns: Seq<Item>) -> Set<Seq<char>> {
    Set::new(|r: Seq<char>| exists|i: int| 0 <= i < ns.len() && (#[trigger] ns[i]).reference@ == r)
}

/// Edges both of whose ends are in `refs`, in order.
pub open spec fn edges_within(es: Seq<GraphEdge>, refs: Set<Seq<char>>) -> Seq<GraphEdge> {
    es.filter(|e: GraphEdge| refs.contains(e.from@) && refs.contains(e.to@))
}

/// Lineage links both of whose ends are in `refs`, in order.
pub open spec fn links_within(ls: Seq<LineageLink>, refs: Set<Seq<char>>) -> Seq<LineageLink> {
    ls.filter(|l: LineageLink| refs.contains(l.from@) && refs.contains(l.to@))
}

/// The refs of `nodes`, as strings.
fn collect_refs(nodes: &Vec<Item>) -> (r: Vec<String>)
    ensures
        forall|x: Seq<char>| #[trigger] strings_view(r@).contains(x) <==> refs_of(nodes@).contains(x),
{
    let mut out: Vec<String> = Vec::new();
    let mut i: usize = 0;
    while i < nodes.len()
        invariant
            i <= nodes.len(),
            out@.len() == i,
            forall|k: int| 0 <= k < i ==> (#[trigger] out@[k])@ == nodes@[k].reference@,
        decreases nodes.len() - i,
    {
        let r = nodes[i].reference.clone();
        out.push(r);
        i = i + 1;
    }
    assert forall|x: Seq<char>| #[trigger] strings_view(out@).contains(x) <==> refs_of(nodes@).contains(x) by {
        let s = strings_view(out@);
        if s.contains(x) {
            let k = choose|k: int| 0 <= k < s.len() && s[k] == x;
            assert(out@[k]@ == x);
            assert(nodes@[k].reference@ == x);
        }
        if refs_of(nodes@).contains(x) {
            let k = choose|k: int| 0 <= k < nodes@.len() && (#[trigger] nodes@[k]).reference@ == x;
            assert(out@[k]@ == x);
            assert(s[k] == x);
        }
    }
    out
}

/// Page the visible graph: the first `node_limit` nodes; of the edges and
/// lineage links between visible nodes, the totals, and the first
/// `edge_limit` / `lineage_limit` of those between nodes of the page.
pub fn page_graph(
    project: String,
    visible: Vec<Item>,
    edges: Vec<GraphEdge>,
    lineage: Vec<LineageLink>,
    node_limit: usize,
    edge_limit: usize,
    lineage_limit: usize,
    grooming_nudge: Option<String>,
) -> (p: ProjectGraphPage)
    ensures
        p.project == project,
        p.grooming_nudge == grooming_nudge,
        p.node_total == visible@.len(),
        p.nodes@ == first_n(visible@, node_limit as int),
        p.edge_total == edges_within(edges@, refs_of(visible@)).len(),
        p.edges@ == first_n(
            edges_within(edges_within(edges@, refs_of(visible@)), refs_of(p.nodes@)),
            edge_limit as int,
        ),
        p.lineage_total == links_within(lineage@, refs_of(visible@)).len(),
        p.lineage@ == first_n(
            links_within(links_within(lineage@, refs_of(visible@)), refs_of(p.nodes@)),
            lineage_limit as int,
        ),
{
    let visible_refs = collect_refs(&visible);
    let ghost vis = refs_of(visible@);
    let node_total = visible.len();
    let mut nodes = visible;
    nodes.truncate(node_limit);
    let payload_refs = collect_refs(&nodes);
    let ghost pay = refs_of(nodes@);
    let seen_edges = retain_edges(&edges, &visible_refs, Ghost(vis));
    let edge_total = seen_edges.len();
    let mut page_edges = retain_edges(&seen_edges, &payload_refs, Ghost(pay));
    page_edges.truncate(edge_limit);
    let seen_links = retain_links(&lineage, &visible_refs, Ghost(vis));
    let lineage_total = seen_links.len();
    let mut page_links = retain_links(&seen_links, &payload_refs, Ghost(pay));
    page_links.truncate(lineage_limit);
    ProjectGraphPage {
        project,
        nodes,
        edges: page_edges,
        lineage: page_links,
        node_total,
        edge_total,
        lineage_total,
        grooming_nudge,
    }
}

} // verus!

verus! {

proof fn lemma_first_n_sub<A>(s: Seq<A>, n: int, x: A)
    requires
        0 <= n,
        first_n(s, n).contains(x),
    ensures
        s.contains(x),
        first_n(s, n).len() <= n,
{
    let k = choose|k: int| 0 <= k < first_n(s, n).len() && first_n(s, n)[k] == x;
    assert(s[k] == x);
}

/// A page never dangles: each edge and lineage link it carries is one of the
/// given ones and joins two nodes of the page; and the page holds at most the
/// requested number of nodes, edges and links.
pub proof fn lemma_page_closed(
    visible: Seq<Item>,
    es: Seq<GraphEdge>,
    ls: Seq<LineageLink>,
    node_limit: nat,
    edge_limit: nat,
    lineage_limit: nat,
)
    ensures
        ({
            let nodes = first_n(visible, node_limit as int);
            let page = first_n(edges_within(edges_within(es, refs_of(visible)), refs_of(nodes)), edge_limit as int);
            &&& nodes.len() <= node_limit
            &&& page.len() <= edge_limit
            &&& forall|e: GraphEdge| #[trigger] page.contains(e) ==> es.contains(e) && refs_of(nodes).contains(e.from@)
                && refs_of(nodes).contains(e.to@)
        }),
        ({
            let nodes = first_n(visible, node_limit as int);
            let page = first_n(links_within(links_within(ls, refs_of(visible)), refs_of(nodes)), lineage_limit as int);
            &&& page.len() <= lineage_limit
            &&& forall|l: LineageLink| #[trigger] page.contains(l) ==> ls.contains(l) && refs_of(nodes).contains(l.from@)
                && refs_of(nodes).contains(l.to@)
        }),
{
    let nodes = first_n(visible, node_limit as int);
    let pv = |e: GraphEdge| refs_of(visible).contains(e.from@) && refs_of(visible).contains(e.to@);
    let pp = |e: GraphEdge| refs_of(nodes).contains(e.from@) && refs_of(nodes).contains(e.to@);
    let seen = edges_within(es, refs_of(visible));
    let inner = edges_within(seen, refs_of(nodes));
    let page = first_n(inner, edge_limit as int);
    assert forall|e: GraphEdge| #[trigger] page.contains(e) implies es.contains(e) && refs_of(nodes).contains(e.from@)
        && refs_of(nodes).contains(e.to@) by {
        lemma_first_n_sub(inner, edge_limit as int, e);
        lemma_filter_member(seen, pp, e);
        lemma_filter_member(es, pv, e);
    }
    let lv = |l: LineageLink| refs_of(visible).contains(l.from@) && refs_of(visible).contains(l.to@);
    let lp = |l: LineageLink| refs_of(nodes).contains(l.from@) && refs_of(nodes).contains(l.to@);
    let lseen = links_within(ls, refs_of(visible));
    let linner = links_within(lseen, refs_of(nodes));
    let lpage = first_n(linner, lineage_limit as int);
    assert forall|l: LineageLink| #[trigger] lpage.contains(l) implies ls.contains(l) && refs_of(nodes).contains(l.from@)
        && refs_of(nodes).contains(l.to@) by {
        lemma_first_n_sub(linner, lineage_limit as int, l);
        lemma_filter_member(lseen, lp, l);
        lemma_filter_member(ls, lv, l);
    }
}

// ---- docs and lineage views ---------------------------------------------------

/// One living-doc anchor and the artifacts attached to it.
#[derive(Debug)]
pub struct DocAnchor {
    pub item: Item,
    pub artifacts: Vec<Artifact>,
}

/// A lineage subgraph rooted at one node, as `evolve graph` returns it.
#[derive(Debug)]
pub struct LineageGraph {
    pub root: String,
    pub events: Vec<LineageEvent>,
}

// ---- container signals ----------------------------------------------------------

/// One live descendant of a container: its status, whether it is committed,
/// and its owner kind.
pub type LiveDescendant = (Status, bool, Option<OwnerKind>);

/// The statuses of the committed descendants, in order.
pub open spec fn committed_statuses(live: Seq<LiveDescendant>) -> Seq<Status>
    decreases live.len(),
{
    if live.len() == 0 {
        Seq::empty()
    } else {
        let rest = committed_statuses(live.drop_last());
        if live.last().1 {
            rest.push(live.last().0)
        } else {
            rest
        }
    }
}

/// The owner kinds of the committed descendants that have one, in order.
pub open spec fn committed_owners(live: Seq<LiveDescendant>) -> Seq<OwnerKind>
    decreases live.len(),
{
    if live.len() == 0 {
        Seq::empty()
    } else {
        let rest = committed_owners(live.drop_last());
        match live.last().2 {
            Some(o) => if live.last().1 {
                rest.push(o)
            } else {
                rest
            },
            None => rest,
        }
    }
}

/// The derived signals of a container from its live descendants: the status
/// rollup and the owner rollup of the committed ones only, and whether any live
/// descendant is uncommitted (so a container reading `done` with work still
/// floating beneath it is flagged).
pub fn container_rollup(live: &[LiveDescendant]) -> (r: (RollupState, OwnerRollup, bool))
    ensures
        r.0 == rollup_spec(committed_statuses(live@)),
        r.1 == owner_rollup_spec(committed_owners(live@)),
        r.2 == (exists|j: int| 0 <= j < live@.len() && !(#[trigger] live@[j]).1),
{
    let mut statuses: Vec<Status> = Vec::new();
    let mut owners: Vec<OwnerKind> = Vec::new();
    let mut uncommitted = false;
    let mut i: usize = 0;
    while i < live.len()
        invariant
            i <= live.len(),
            statuses@ == committed_statuses(live@.take(i as int)),
            owners@ == committed_owners(live@.take(i as int)),
            uncommitted == (exists|j: int| 0 <= j < i && !(#[trigger] live@[j]).1),
        decreases live.len() - i,
    {
        let (status, committed, owner) = live[i];
        proof {
            assert(live@.take(i + 1).drop_last() =~= live@.take(i as int));
            assert(live@.take(i + 1).last() == live@[i as int]);
        }
        if committed {
            statuses.push(status);
            match owner {
                Some(o) => owners.push(o),
                None => {},
            }
        } else {
            uncommitted = true;
        }
        i = i + 1;
    }
    proof {
        assert(live@.take(live.len() as int) =~= live@);
    }
    (rollup_from_statuses(statuses.as_slice()), owner_rollup_from(owners.as_slice()), uncommitted)
}

// ---- lineage scope ------------------------------------------------------------------

/// The default number of lineage hops `evolve graph` walks.
pub const LINEAGE_DEPTH: i64 = 50;

/// The hop limit of `evolve graph`: the given one, else [`LINEAGE_DEPTH`].
pub fn lineage_depth(depth: Option<i64>) -> (r: i64)
    ensures
        r == (match depth {
            Some(d) => d,
            None => LINEAGE_DEPTH,
        }),
{
    match depth {
        Some(d) => d,
        None => LINEAGE_DEPTH,
    }
}

/// The node ids an `evolve graph` shows events of: the root, plus its ancestors
/// and/or descendants as the direction asks.
pub open spec fn lineage_scope_set(
    root: i64,
    direction: LineageDirection,
    ancestors: Seq<i64>,
    descendants: Seq<i64>,
) -> Set<i64> {
    set![root] + (if direction != LineageDirection::Descendants {
        ancestors.to_set()
    } else {
        Set::empty()
    }) + (if direction != LineageDirection::Ancestors {
        descendants.to_set()
    } else {
        Set::empty()
    })
}

/// Strictly increasing ids.
pub open spec fn strictly_increasing(ids: Seq<i64>) -> bool {
    forall|i: int, j: int| 0 <= i < j < ids.len() ==> #[trigger] ids[i] < #[trigger] ids[j]
}

/// Insert `x` into strictly increasing `ids` unless it is already there.
fn insert_id(ids: &mut Vec<i64>, x: i64)
    requires
        strictly_increasing(old(ids)@),
    ensures
        strictly_increasing(final(ids)@),
        final(ids)@.to_set() == old(ids)@.to_set().insert(x),
{
    let mut p: usize = 0;
    while p < ids.len() && ids[p] < x
        invariant
            p <= ids.len(),
            forall|q: int| 0 <= q < p ==> #[trigger] ids@[q] < x,
        decreases ids.len() - p,
    {
        p = p + 1;
    }
    if p < ids.len() && ids[p] == x {
        proof {
            assert(old(ids)@.to_set().insert(x) =~= old(ids)@.to_set());
        }
        return;
    }
    let ghost before = ids@;
    ids.insert(p, x);
    proof {
        assert forall|i: int, j: int| 0 <= i < j < ids@.len() implies #[trigger] ids@[i] < #[trigger] ids@[j] by {
            if j < p {
                assert(ids@[i] == before[i] && ids@[j] == before[j]);
            } else if j == p {
                assert(ids@[i] == before[i]);
            } else if i > p {
                assert(ids@[i] == before[i - 1] && ids@[j] == before[j - 1]);
            } else if i == p {
                assert(ids@[j] == before[j - 1]);
                assert(before[p as int] > x);
                if j - 1 > p {
                    assert(before[p as int] < before[j - 1]);
                }
            } else {
                assert(ids@[i] == before[i] && ids@[j] == before[j - 1]);
            }
        }
        assert forall|y: i64| ids@.to_set().contains(y) <==> before.to_set().insert(x).contains(y) by {
            if ids@.to_set().contains(y) {
                let k = choose|k: int| 0 <= k < ids@.len() && ids@[k] == y;
                if k < p {
                    assert(before[k] == y);
                } else if k > p {
                    assert(before[k - 1] == y);
                }
            }
            if before.to_set().contains(y) {
                let k = choose|k: int| 0 <= k < before.len() && before[k] == y;
                if k < p {
                    assert(ids@[k] == y);
                } else {
                    assert(ids@[k + 1] == y);
                }
            }
            if y == x {
                assert(ids@[p as int] == x);
            }
        }
        assert(ids@.to_set() =~= before.to_set().insert(x));
    }
}

/// Add every id of `xs` to strictly increasing `ids`.
fn insert_all(ids: &mut Vec<i64>, xs: &Vec<i64>)
    requires
        strictly_increasing(old(ids)@),
    ensures
        strictly_increasing(final(ids)@),
        final(ids)@.to_set() == old(ids)@.to_set() + xs@.to_set(),
{
    let ghost start = ids@.to_set();
    let mut i: usize = 0;
    while i < xs.len()
        invariant
            i <= xs.len(),
            strictly_increasing(ids@),
            ids@.to_set() == start + xs@.take(i as int).to_set(),
        decreases xs.len() - i,
    {
        insert_id(ids, xs[i]);
        proof {
            assert(xs@.take(i + 1) =~= xs@.take(i as int).push(xs@[i as int]));
            xs@.take(i as int).lemma_push_to_set_commute(xs@[i as int]);
            assert(ids@.to_set() =~= start + xs@.take(i + 1).to_set());
        }
        i = i + 1;
    }
    proof {
        assert(xs@.take(xs.len() as int) =~= xs@);
    }
}

/// The ids `evolve graph` collects events for, ascending and without repeats:
/// the root and the reachable ancestors and/or descendants.
pub fn lineage_scope(
    root: i64,
    direction: LineageDirection,
    ancestors: &Vec<i64>,
    descendants: &Vec<i64>,
) -> (r: Vec<i64>)
    ensures
        strictly_increasing(r@),
        r@.to_set() == lineage_scope_set(root, direction, ancestors@, descendants@),
{
    let mut ids: Vec<i64> = Vec::new();
    ids.push(root);
    proof {
        Seq::<i64>::empty().lemma_push_to_set_commute(root);
        assert(ids@ =~= Seq::<i64>::empty().push(root));
        assert(ids@.to_set() =~= set![root]);
    }
    let ghost with_root = ids@.to_set();
    if !matches!(direction, LineageDirection::Descendants) {
        insert_all(&mut ids, ancestors);
    } else {
        proof {
            assert(ids@.to_set() =~= with_root + Set::<i64>::empty());
        }
    }
    let ghost mid = ids@.to_set();
    if !matches!(direction, LineageDirection::Ancestors) {
        insert_all(&mut ids, descendants);
    } else {
        proof {
            assert(ids@.to_set() =~= mid + Set::<i64>::empty());
        }
    }
    ids
}

} // verus!
