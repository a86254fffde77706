use haven_core::edge::EdgeKind;
use haven_core::json::Json;
use haven_core::model::{Artifact, ArtifactKind, ArtifactRole, Item, NodeType, OwnerKind, OwnerRollup, RollupState, Status, SyncState};
use haven_core::item::{apply_update, plan_update, ItemUpdate};
use haven_core::prime::assemble_prime;
use haven_core::query::{
    container_rollup, dispatch_candidate, dispatch_eligibility, explain_wanted, dispatch_limit, lineage_depth, lineage_scope, explain_hint, grooming_nudge, owner_mismatch, owner_rollup_from,
    page_graph, recommend, recommendation_reason, rollup_from_statuses, DispatchCandidate, DispatchContextItem,
    GraphEdge, GroomingPressure, LineageDirection, LineageLink, ProjectGraph,
};

fn item(reference: &str, status: Status) -> Item {
    Item {
        id: 1,
        public_id: "p".into(),
        reference: reference.into(),
        project: "haven".into(),
        title: format!("title of {reference}"),
        body: None,
        done_looks_like: None,
        why: None,
        due_at: None,
        node_type: NodeType::Task,
        status,
        owner_kind: None,
        assignee: None,
        wait_state: None,
        committed: true,
        priority: None,
        sort_key: None,
        metadata: Json::Null,
        created_at: "".into(),
        updated_at: "".into(),
        archived_at: None,
        revision: 1,
        sync_state: SyncState::Local,
        rollup_state: None,
        owner_rollup: None,
        has_uncommitted_descendants: None,
        edges: None,
        artifacts: None,
        lineage: None,
        context_pack: None,
        context_pack_clash: None,
    }
}

fn edge(from: &str, to: &str) -> GraphEdge {
    GraphEdge { kind: EdgeKind::Dependency, from: from.into(), to: to.into() }
}

fn link(from: &str, to: &str) -> LineageLink {
    LineageLink { event: "e".into(), from: from.into(), to: to.into() }
}

#[test]
fn rollups_classify_containers() {
    assert_eq!(rollup_from_statuses(&[]), RollupState::Dormant);
    assert_eq!(rollup_from_statuses(&[Status::Done, Status::InProgress]), RollupState::Active);
    assert_eq!(rollup_from_statuses(&[Status::Done, Status::Done]), RollupState::Done);
    assert_eq!(rollup_from_statuses(&[Status::Done, Status::Ready]), RollupState::Queued);
    assert_eq!(owner_rollup_from(&[]), OwnerRollup::Unassigned);
    assert_eq!(owner_rollup_from(&[OwnerKind::Ai, OwnerKind::Ai]), OwnerRollup::Ai);
    assert_eq!(owner_rollup_from(&[OwnerKind::Human]), OwnerRollup::Human);
    assert_eq!(owner_rollup_from(&[OwnerKind::Ai, OwnerKind::Human]), OwnerRollup::Mixed);
}

#[test]
fn lineage_directions_parse() {
    assert_eq!(LineageDirection::parse("ancestors").unwrap(), LineageDirection::Ancestors);
    assert_eq!(LineageDirection::parse("descendants").unwrap(), LineageDirection::Descendants);
    assert_eq!(LineageDirection::parse("both").unwrap(), LineageDirection::Both);
    assert!(LineageDirection::parse("sideways").is_err());
}

#[test]
fn live_only_drops_dead_nodes_and_dangling_edges() {
    let g = ProjectGraph {
        project: "haven".into(),
        nodes: vec![item("HV-1", Status::Ready), item("HV-2", Status::Superseded), item("HV-3", Status::Done)],
        edges: vec![edge("HV-1", "HV-2"), edge("HV-3", "HV-1")],
        lineage: vec![link("HV-2", "HV-3"), link("HV-1", "HV-3")],
        grooming_nudge: None,
    };
    let live = g.live_only();
    let refs: Vec<&str> = live.nodes.iter().map(|n| n.reference.as_str()).collect();
    assert_eq!(refs, vec!["HV-1", "HV-3"]);
    assert_eq!(live.edges.len(), 1);
    assert_eq!(live.edges[0].from, "HV-3");
    assert_eq!(live.lineage.len(), 1);
    assert_eq!(live.lineage[0].from, "HV-1");
    // Idempotent.
    let again = live.live_only();
    assert_eq!(again.nodes.len(), 2);
    assert_eq!(again.edges.len(), 1);
}

#[test]
fn graph_pages_bound_nodes_and_count_visible_totals() {
    let visible = vec![item("HV-1", Status::Ready), item("HV-2", Status::Ready), item("HV-3", Status::Ready)];
    let edges = vec![edge("HV-1", "HV-2"), edge("HV-2", "HV-3"), edge("HV-1", "HV-9"), edge("HV-2", "HV-1")];
    let lineage = vec![link("HV-1", "HV-2"), link("HV-3", "HV-1")];
    let p = page_graph("haven".into(), visible, edges, lineage, 2, 1, 5, None);
    assert_eq!(p.node_total, 3);
    assert_eq!(p.nodes.len(), 2);
    assert_eq!(p.edge_total, 3);
    assert_eq!(p.edges.len(), 1);
    assert_eq!((p.edges[0].from.as_str(), p.edges[0].to.as_str()), ("HV-1", "HV-2"));
    assert_eq!(p.lineage_total, 2);
    assert_eq!(p.lineage.len(), 1);
    assert_eq!(p.lineage[0].to, "HV-2");
}

#[test]
fn dispatch_wording_and_limits() {
    let scope = DispatchContextItem { reference: "HV-5".into(), title: "t".into(), node_type: NodeType::Phase };
    assert_eq!(dispatch_eligibility(None, None), "committed, ready, unblocked, not waiting");
    assert_eq!(
        dispatch_eligibility(Some(OwnerKind::Ai), Some(&scope)),
        "committed, ready, unblocked, not waiting, owner matched, inside scope"
    );
    assert_eq!(
        recommendation_reason(Some(OwnerKind::Human), Some(&scope)),
        "highest-ranked dispatchable item for owner human under HV-5"
    );
    assert_eq!(recommendation_reason(None, None), "highest-ranked dispatchable item");
    assert_eq!(dispatch_limit(None), 5);
    assert_eq!(dispatch_limit(Some(-3)), 0);
    assert_eq!(dispatch_limit(Some(12)), 12);
    assert_eq!(owner_mismatch(None, 1, 4), 0);
    assert_eq!(owner_mismatch(Some(OwnerKind::Ai), 1, 4), 3);
    assert_eq!(owner_mismatch(Some(OwnerKind::Ai), i64::MIN, 1), i64::MAX);
    assert_eq!(explain_hint(1, 0, 0, 0, 0, 0), "queue has dispatchable items");
    assert_eq!(explain_hint(0, 2, 1, 0, 0, 0), "ready items exist, but not for the requested owner");
    assert_eq!(explain_hint(0, 0, 1, 1, 0, 0), "ready items are blocked by open dependencies");
    assert_eq!(explain_hint(0, 0, 0, 1, 0, 0), "ready items are waiting on a human, dependency, or external event");
    assert_eq!(explain_hint(0, 0, 0, 0, 1, 1), "committed items exist but are not ready yet");
    assert_eq!(explain_hint(0, 0, 0, 0, 0, 1), "ready items exist but are still uncommitted");
    assert_eq!(explain_hint(0, 0, 0, 0, 0, 0), "no ready committed work found");
}

#[test]
fn the_first_candidate_is_recommended() {
    assert!(recommend(&[], None, None).is_none());
    let c = DispatchCandidate {
        rank: 1,
        reference: "HV-7".into(),
        title: "t".into(),
        node_type: NodeType::Task,
        status: Status::Ready,
        owner_kind: None,
        committed: true,
        priority: None,
        done_looks_like: None,
        why: None,
        body: None,
        parents: vec![],
        groups: vec![],
        blocks: vec![],
        artifacts: vec![],
        context_pack: None,
        context_pack_clash: None,
        eligibility: "e".into(),
    };
    let r = recommend(&[c], Some(OwnerKind::Ai), None).unwrap();
    assert_eq!(r.reference, "HV-7");
    assert_eq!(r.reason, "highest-ranked dispatchable item for owner ai");
}

#[test]
fn grooming_pressure_nudges_above_threshold() {
    assert_eq!(grooming_nudge(4, 4), None);
    assert_eq!(
        grooming_nudge(5, 0).unwrap(),
        "5 untriaged floater(s), 0 stale item(s) — groom (workflow 3) before planning"
    );
    let g = GroomingPressure::from_counts(1, 6);
    assert_eq!((g.untriaged, g.stale), (1, 6));
    assert!(g.nudge.unwrap().starts_with("1 untriaged floater(s), 6 stale item(s)"));
}

#[test]
fn prime_block_renders_exactly() {
    let p = assemble_prime(
        "haven".into(),
        "HV".into(),
        (3, 2, 1, 0),
        &vec!["HV-1".to_string()],
        vec![item("HV-1", Status::Ready), item("HV-2", Status::Ready)],
        vec![item("HV-4", Status::InProgress)],
        0,
        vec![],
        None,
    );
    assert_eq!(p.queue_total, 2);
    assert_eq!(p.next_eligible_total, 1);
    let text = p.render();
    assert!(text.starts_with("PROJECT haven (HV) — 3 items, 2 committed, 1 icebox\n"), "{text}");
    assert!(text.contains("\nQUEUE (committed-ready: 2, dispatchable now: 1) — '>' = next-eligible\n  > HV-1  title of HV-1\n    HV-2  title of HV-2\n"), "{text}");
    assert!(text.contains("\nIN-PROGRESS / WAITING (1)\n  HV-4 title of HV-4  [unassigned] in_progress\n"), "{text}");
    assert!(text.ends_with("\nINBOX (untriaged: 0)\n  (empty)\n"), "{text}");
    assert!(p.render_with_sync(true).starts_with("PROJECT haven (HV) — 3 items, 2 committed, 1 icebox, sync clean\n"));
}

#[test]
fn containers_roll_up_their_committed_subtree_only() {
    let live = [
        (Status::Done, true, Some(OwnerKind::Ai)),
        (Status::Done, true, None),
        (Status::InProgress, false, Some(OwnerKind::Human)),
    ];
    // The uncommitted in-progress floater neither counts as active nor as an owner...
    assert_eq!(container_rollup(&live), (RollupState::Done, OwnerRollup::Ai, true));
    // ...but an uncommitted descendant is flagged.
    assert_eq!(container_rollup(&live[..2]), (RollupState::Done, OwnerRollup::Ai, false));
    assert_eq!(container_rollup(&[]), (RollupState::Dormant, OwnerRollup::Unassigned, false));
    let mixed = [(Status::Ready, true, Some(OwnerKind::Ai)), (Status::InProgress, true, Some(OwnerKind::Human))];
    assert_eq!(container_rollup(&mixed), (RollupState::Active, OwnerRollup::Mixed, false));
}

#[test]
fn lineage_scope_follows_the_direction() {
    assert_eq!(lineage_depth(None), 50);
    assert_eq!(lineage_depth(Some(2)), 2);
    let anc = vec![9, 3, 3];
    let desc = vec![12, 1];
    assert_eq!(lineage_scope(5, LineageDirection::Ancestors, &anc, &desc), vec![3, 5, 9]);
    assert_eq!(lineage_scope(5, LineageDirection::Descendants, &anc, &desc), vec![1, 5, 12]);
    assert_eq!(lineage_scope(5, LineageDirection::Both, &anc, &desc), vec![1, 3, 5, 9, 12]);
    assert_eq!(lineage_scope(5, LineageDirection::Both, &vec![5], &vec![]), vec![5]);
}

#[test]
fn an_update_bumps_the_revision_and_keeps_unnamed_fields() {
    let mut it = item("HV-5", Status::Definition);
    it.done_looks_like = Some("p95 verify < 5ms; refresh on kid-miss".into());
    it.why = Some("auth latency goal from perf review".into());
    it.sync_state = SyncState::Synced;
    let upd = ItemUpdate { done_looks_like: Some("p95 verify < 3ms".into()), ..Default::default() };
    let sets = plan_update("HV-5", upd, it.status, it.done_looks_like.as_deref()).unwrap();
    let u = apply_update(it, sets, "2026-02-03 04:05:06".into());
    assert_eq!(u.done_looks_like.as_deref(), Some("p95 verify < 3ms"));
    assert_eq!(u.why.as_deref(), Some("auth latency goal from perf review"));
    assert_eq!(u.title, "title of HV-5");
    assert_eq!(u.status, Status::Definition);
    assert_eq!(u.revision, 2);
    assert_eq!(u.sync_state, SyncState::Local);
    assert_eq!(u.updated_at, "2026-02-03 04:05:06");
}

#[test]
fn dispatch_candidates_are_ranked_from_one_with_their_context() {
    let parent = DispatchContextItem { reference: "HV-1".into(), title: "Epic".into(), node_type: NodeType::Phase };
    let art = Artifact {
        id: 9,
        public_id: "a-9".into(),
        node_ref: Some("HV-4".into()),
        role: ArtifactRole::Research,
        kind: ArtifactKind::File,
        path: Some("items/HV-4/research.md".into()),
        uri: None,
        title: Some("Notes".into()),
        excerpt: None,
        from_owner: None,
        to_owner: None,
        content_hash: None,
        remote_path: None,
        metadata: None,
        created_at: "2026-01-01".into(),
        created_by: None,
        revision: 1,
        sync_state: SyncState::Local,
    };
    let scope = parent.clone();
    let c = dispatch_candidate(0, item("HV-4", Status::Ready), vec![parent], vec![], vec![], vec![art], Some(OwnerKind::Ai), Some(&scope));
    assert_eq!(c.rank, 1);
    assert_eq!(c.reference, "HV-4");
    assert_eq!(c.parents.len(), 1);
    assert_eq!(c.artifacts.len(), 1);
    assert_eq!(c.artifacts[0].path.as_deref(), Some("items/HV-4/research.md"));
    assert_eq!(c.artifacts[0].title.as_deref(), Some("Notes"));
    assert_eq!(c.eligibility, dispatch_eligibility(Some(OwnerKind::Ai), Some(&scope)));
    assert_eq!(dispatch_candidate(4, item("HV-5", Status::Ready), vec![], vec![], vec![], vec![], None, None).rank, 5);
    assert!(explain_wanted(true, 3));
    assert!(explain_wanted(false, 0));
    assert!(!explain_wanted(false, 3));
}
