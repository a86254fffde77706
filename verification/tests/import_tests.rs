use haven_core::edge::EdgeKind;
use haven_core::error::HavenError;
use haven_core::import::{engaged_status, plan_import, validate_import, EdgeEnd, ImportAction, ImportItem, PlannedEdge};
use haven_core::item::format_ref;
use haven_core::model::{NodeType, OwnerKind, Status};

fn it(title: &str) -> ImportItem {
    ImportItem {
        title: title.into(),
        id: None,
        node_type: None,
        body: None,
        done_looks_like: None,
        why: None,
        status: None,
        priority: None,
        commit: false,
        assign: None,
        parent: None,
        depends_on: vec![],
        group: None,
    }
}

fn invalid(e: HavenError) -> String {
    match e {
        HavenError::Invalid(m) => m,
        other => panic!("expected an invalid error, got {other:?}"),
    }
}

#[test]
fn import_wires_temp_id_edges_in_one_batch() {
    let mut phase = it("Phase");
    phase.id = Some("p".into());
    phase.node_type = Some("phase".into());
    let mut a = it("A");
    a.id = Some("a".into());
    a.group = Some("p".into());
    let mut b = it("B");
    b.parent = Some("HV-1".into());
    b.depends_on = vec!["a".into()];
    b.assign = Some("ai".into());
    let items = vec![phase, a, b];
    let existing = vec![("HV-1".to_string(), 41)];
    let (axes, actions, edges) =
        plan_import(&items, &vec![false; 3], &existing, &vec![None; 3], false).unwrap();
    assert_eq!(axes[0].node_type, NodeType::Phase);
    assert_eq!(axes[1].status, Status::Discovery);
    assert_eq!(axes[2].assign, Some(OwnerKind::Ai));
    assert_eq!(actions, vec![ImportAction::Create; 3]);
    assert_eq!(
        edges,
        vec![
            PlannedEdge { kind: EdgeKind::Grouping, from: EdgeEnd::Batch(0), to: EdgeEnd::Batch(1) },
            PlannedEdge { kind: EdgeKind::Decomposition, from: EdgeEnd::Node(41), to: EdgeEnd::Batch(2) },
            PlannedEdge { kind: EdgeKind::Dependency, from: EdgeEnd::Batch(2), to: EdgeEnd::Batch(1) },
        ]
    );
}

#[test]
fn import_validation_rejects_bad_input_without_writing() {
    let none: Vec<(String, i64)> = vec![];
    assert_eq!(invalid(validate_import(&vec![it("  ")], &vec![false], &none).unwrap_err()), "items[0]: title must not be empty");
    let mut x = it("x");
    x.id = Some("t".into());
    let mut y = it("y");
    y.id = Some("t".into());
    assert_eq!(
        invalid(validate_import(&vec![x.clone(), y], &vec![false, false], &none).unwrap_err()),
        "items[1]: duplicate temp id \"t\""
    );
    assert_eq!(
        invalid(validate_import(&vec![x], &vec![true], &none).unwrap_err()),
        "items[0]: temp id \"t\" shadows an existing item"
    );
    let mut engaged = it("e");
    engaged.status = Some("done".into());
    assert!(invalid(validate_import(&vec![engaged], &vec![false], &none).unwrap_err()).contains("born done"));
    let mut committed = it("c");
    committed.commit = true;
    assert!(invalid(validate_import(&vec![committed], &vec![false], &none).unwrap_err()).contains("commit:true"));
    let mut ready = it("r");
    ready.status = Some("ready".into());
    assert!(invalid(validate_import(&vec![ready], &vec![false], &none).unwrap_err()).contains("without acceptance"));
    let mut dangling = it("d");
    dangling.parent = Some("HV-404".into());
    assert_eq!(
        invalid(validate_import(&vec![dangling], &vec![false], &none).unwrap_err()),
        "items[0]: edge target \"HV-404\" is neither a temp id in this file nor an existing item"
    );
    let mut bad_type = it("t");
    bad_type.node_type = Some("epic".into());
    assert!(invalid(validate_import(&vec![bad_type], &vec![false], &none).unwrap_err()).starts_with("items[0]: "));
    assert!(engaged_status(Status::InProgress));
    assert!(!engaged_status(Status::Ready));
}

#[test]
fn import_if_absent_dedupes_against_store_and_batch() {
    let items = vec![it("Setup CI"), it("setup  ci."), it("Other"), it("???")];
    let live = vec![Some(7), None, None, Some(9)];
    let (_, actions, _) = plan_import(&items, &vec![false; 4], &vec![], &live, true).unwrap();
    assert_eq!(
        actions,
        vec![ImportAction::Existing(7), ImportAction::SameAs(0), ImportAction::Create, ImportAction::Create]
    );
}

#[test]
fn import_of_a_forward_referenced_batch() {
    // The batch of the store-level scenario: a parent named before it appears,
    // a dependency on a pre-existing ref, a temp-id dependency and a group.
    let mut api = it("Build API");
    api.id = Some("api".into());
    api.parent = Some("epic".into());
    api.depends_on = vec!["HV-1".into()];
    api.status = Some("ready".into());
    api.commit = true;
    let mut ui = it("Build UI");
    ui.id = Some("ui".into());
    ui.depends_on = vec!["api".into()];
    ui.group = Some("phase1".into());
    let mut epic = it("Auth epic");
    epic.id = Some("epic".into());
    let mut phase1 = it("Phase 1");
    phase1.id = Some("phase1".into());
    phase1.node_type = Some("phase".into());
    let existing = vec![("HV-1".to_string(), 1)];
    let batch = vec![api.clone(), ui.clone(), epic.clone(), phase1.clone()];

    // As written, the first item is committed: the whole batch is refused
    // before any write (import never mints committed items).
    let err = invalid(plan_import(&batch, &vec![false; 4], &existing, &vec![None; 4], false).unwrap_err());
    assert!(err.contains("items[0]") && err.contains("commit:true"), "{err}");
    // Uncommitted, it is still `ready` without acceptance: refused as well.
    api.commit = false;
    let batch = vec![api.clone(), ui.clone(), epic.clone(), phase1.clone()];
    let err = invalid(plan_import(&batch, &vec![false; 4], &existing, &vec![None; 4], false).unwrap_err());
    assert!(err.contains("items[0]") && err.contains("ready without acceptance"), "{err}");

    // With acceptance, it plans four creates and wires every temp id.
    api.done_looks_like = Some("endpoints answer".into());
    let batch = vec![api, ui, epic, phase1];
    let (axes, actions, edges) =
        plan_import(&batch, &vec![false; 4], &existing, &vec![None; 4], false).unwrap();
    assert_eq!(actions, vec![ImportAction::Create; 4]);
    assert_eq!(axes[0].status, Status::Ready);
    assert_eq!(axes[3].node_type, NodeType::Phase);
    assert_eq!(edges.len(), 4);
    for e in [
        PlannedEdge { kind: EdgeKind::Decomposition, from: EdgeEnd::Batch(2), to: EdgeEnd::Batch(0) },
        PlannedEdge { kind: EdgeKind::Dependency, from: EdgeEnd::Batch(0), to: EdgeEnd::Node(1) },
        PlannedEdge { kind: EdgeKind::Dependency, from: EdgeEnd::Batch(1), to: EdgeEnd::Batch(0) },
        PlannedEdge { kind: EdgeKind::Grouping, from: EdgeEnd::Batch(3), to: EdgeEnd::Batch(1) },
    ] {
        assert!(edges.contains(&e), "missing {e:?} in {edges:?}");
    }
    // Refs are minted in batch order after the pre-existing HV-1.
    let refs: Vec<String> = (2..=5).map(|n| format_ref("HV", n)).collect();
    assert_eq!(refs, vec!["HV-2", "HV-3", "HV-4", "HV-5"]);
}
