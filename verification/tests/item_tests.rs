use haven_core::error::HavenError;
use haven_core::item::{
    acceptance_blank, check_new_item, completion_check, format_ref, fts_title_query, fts_user_query,
    dedupe_title, evidence_artifact, handoff_note, handoff_plan, item_defaults, CompleteInput,
    HandoffInput, normalize_title, parse_ref, plan_update, rank_refusal, rank_target,
    refuse_artifact_bearing_anchor, validate_due_at, ColumnSet, DueUpdate, Include, ItemUpdate,
    NewItem, WaitUpdate,
};
use haven_core::model::{ArtifactKind, ArtifactRole, NodeType, OwnerKind, Status, WaitState};

fn invalid(e: HavenError) -> String {
    match e {
        HavenError::Invalid(m) => m,
        other => panic!("expected an invalid error, got {other:?}"),
    }
}

#[test]
fn include_parse_error_names_the_legal_set() {
    let err = invalid(Include::parse("comments").unwrap_err());
    assert!(err.contains("comments"), "names the bad value: {err}");
    for v in ["edges", "artifacts", "lineage"] {
        assert!(err.contains(v), "include error must name {v:?}: {err}");
    }
}

#[test]
fn include_parses_the_legal_set() {
    assert_eq!(Include::parse("edges").unwrap(), Include::Edges);
    assert_eq!(Include::parse("artifacts").unwrap(), Include::Artifacts);
    assert_eq!(Include::parse("lineage").unwrap(), Include::Lineage);
    assert_eq!(
        invalid(Include::parse("comments").unwrap_err()),
        "unknown include \"comments\" — valid: edges, artifacts, lineage"
    );
}

#[test]
fn add_mints_sequential_refs_and_defaults() {
    let a = format_ref("HV", 1);
    let b = format_ref("HV", 2);
    assert_eq!(a, "HV-1");
    assert_eq!(b, "HV-2");
    let first = NewItem { title: "First".into(), ..Default::default() };
    let (node_type, status) = item_defaults(&first);
    assert_eq!(status, Status::Discovery);
    assert!(!first.commit);
    assert_eq!(first.priority, None);
    assert!(first.assign.is_none());
    assert_eq!(node_type, NodeType::Task);
    assert!(check_new_item(&first).is_ok());
}

#[test]
fn item_defaults_keep_what_was_given() {
    let n = NewItem {
        title: "x".into(),
        node_type: Some(NodeType::Phase),
        status: Some(Status::Blocked),
        ..Default::default()
    };
    assert_eq!(item_defaults(&n), (NodeType::Phase, Status::Blocked));
}

#[test]
fn refs_round_trip_through_parse() {
    assert_eq!(parse_ref("HV-12"), Some(("HV".to_string(), 12)));
    assert_eq!(parse_ref(&format_ref("MY-PROJ", 7)), Some(("MY-PROJ".to_string(), 7)));
    assert_eq!(parse_ref("HV"), None);
    assert_eq!(parse_ref("HV-"), None);
    assert_eq!(parse_ref("HV-x1"), None);
}

#[test]
fn normalize_title_folds_case_whitespace_and_trailing_punctuation() {
    let norm = normalize_title;
    assert_eq!(norm("Setup  CI."), "setup ci");
    assert_eq!(norm("  Setup\tCI  "), "setup ci");
    assert_eq!(norm("Ship it!?"), "ship it");
    assert_eq!(norm("Ship it !?"), "ship it");
    assert_eq!(norm("A.B"), "a.b");
    assert_eq!(norm("???"), "");
}

#[test]
fn normalize_title_is_idempotent_on_examples() {
    for t in ["Setup  CI.", "  Ship\tit!? ", "A.B", "", "Ünïcode Title."] {
        let once = normalize_title(t);
        assert_eq!(normalize_title(&once), once);
    }
}

#[test]
fn fts_title_query_neutralizes_fts_syntax() {
    let q = fts_title_query;
    assert_eq!(
        q(r#"Fix "auth" — (don't crash)!"#).unwrap(),
        r#"title : ("Fix" OR "auth" OR "don" OR "t" OR "crash")"#
    );
    assert_eq!(q("AND OR NOT").unwrap(), r#"title : ("AND" OR "OR" OR "NOT")"#);
    assert_eq!(q("?!— ()"), None);
}

#[test]
fn fts_user_query_quotes_every_token() {
    assert_eq!(fts_user_query("auth* NEAR(x)").unwrap(), r#""auth" "NEAR" "x""#);
    assert_eq!(fts_user_query("  "), None);
}

#[test]
fn new_items_are_refused_before_any_write() {
    let blank = NewItem { title: "  ".into(), ..Default::default() };
    assert_eq!(invalid(check_new_item(&blank).unwrap_err()), "item title must not be empty");

    let naked_ready = NewItem { title: "naked ready".into(), status: Some(Status::Ready), ..Default::default() };
    assert!(invalid(check_new_item(&naked_ready).unwrap_err()).contains("done_looks_like"));

    let ready = NewItem {
        title: "ready".into(),
        status: Some(Status::Ready),
        done_looks_like: Some("tests pass".into()),
        ..Default::default()
    };
    assert!(check_new_item(&ready).is_ok());

    let bad_due = NewItem { title: "t".into(), due_at: Some("2026-02-30".into()), ..Default::default() };
    assert!(invalid(check_new_item(&bad_due).unwrap_err()).contains("2026-02-30"));
}

#[test]
fn acceptance_and_due_dates() {
    assert!(acceptance_blank(None));
    assert!(acceptance_blank(Some(" \t")));
    assert!(!acceptance_blank(Some("ok")));
    assert!(validate_due_at("2026-06-19").is_ok());
    assert_eq!(
        invalid(validate_due_at("tomorrow").unwrap_err()),
        "invalid due_at \"tomorrow\" — expected a calendar date YYYY-MM-DD"
    );
}

#[test]
fn plan_update_lists_the_columns_in_order() {
    let upd = ItemUpdate {
        title: Some("New".into()),
        priority: Some(3),
        wait: Some(WaitUpdate::Clear),
        due: Some(DueUpdate::Assign("2026-07-01".into())),
        ..Default::default()
    };
    let sets = plan_update("HV-1", upd, Status::Discovery, None).unwrap();
    assert_eq!(sets.len(), 4);
    assert!(matches!(&sets[0], ColumnSet::Title(t) if t == "New"));
    assert!(matches!(&sets[1], ColumnSet::Priority(3)));
    assert!(matches!(&sets[2], ColumnSet::WaitCleared));
    assert!(matches!(&sets[3], ColumnSet::DueAt(d) if d == "2026-07-01"));
}

#[test]
fn plan_update_refusals() {
    let empty = ItemUpdate::default();
    assert!(invalid(plan_update("HV-1", empty, Status::Discovery, None).unwrap_err()).contains("no fields"));

    let to_ready = ItemUpdate { status: Some(Status::Ready), ..Default::default() };
    let msg = invalid(plan_update("HV-1", to_ready.clone(), Status::Discovery, None).unwrap_err());
    assert!(msg.starts_with("cannot mark HV-1 ready"));
    assert!(plan_update("HV-1", to_ready, Status::Discovery, Some("done")).is_ok());

    let clear_done = ItemUpdate { done_looks_like: Some(" ".into()), ..Default::default() };
    assert!(plan_update("HV-1", clear_done.clone(), Status::Ready, Some("done")).is_err());
    assert!(plan_update("HV-1", clear_done, Status::Discovery, Some("done")).is_ok());

    let bad_due = ItemUpdate { due: Some(DueUpdate::Assign("2026-13-01".into())), ..Default::default() };
    assert!(invalid(plan_update("HV-1", bad_due, Status::Discovery, None).unwrap_err()).contains("2026-13-01"));
}

#[test]
fn handoff_defaults_follow_the_direction() {
    // To a human: blocked, waiting on the human, from the current owner.
    let none = HandoffInput::default();
    let (from, status, wait) = handoff_plan(OwnerKind::Human, &none, Some(OwnerKind::Ai), Status::Ready);
    assert_eq!(from, OwnerKind::Ai);
    assert_eq!(status, Some(Status::Blocked));
    assert_eq!(wait, WaitUpdate::Assign(WaitState::OnHuman));
    // Back to the AI from blocked: ready again.
    let (_, status, _) = handoff_plan(OwnerKind::Ai, &none, Some(OwnerKind::Human), Status::Blocked);
    assert_eq!(status, Some(Status::Ready));
    // To the AI from anything but blocked: status unchanged, wait cleared, from the other side.
    let (from, status, wait) = handoff_plan(OwnerKind::Ai, &none, None, Status::Discovery);
    assert_eq!(from, OwnerKind::Human);
    assert_eq!(status, None);
    assert_eq!(wait, WaitUpdate::Clear);
    // Explicit choices win.
    let explicit = HandoffInput {
        from: Some(OwnerKind::Human),
        status: Some(Status::Definition),
        wait: Some(WaitState::OnExternal),
        ..Default::default()
    };
    let (from, status, wait) = handoff_plan(OwnerKind::Ai, &explicit, None, Status::Discovery);
    assert_eq!(from, OwnerKind::Human);
    assert_eq!(status, Some(Status::Definition));
    assert_eq!(wait, WaitUpdate::Assign(WaitState::OnExternal));
}

#[test]
fn completion_warns_without_acceptance_and_refuses_dead_items() {
    assert_eq!(completion_check(Status::Ready, Some("ok")).unwrap().len(), 0);
    assert_eq!(completion_check(Status::Ready, None).unwrap().len(), 1);
    assert_eq!(
        invalid(completion_check(Status::Superseded, None).unwrap_err()),
        "cannot complete a superseded item; reopen it first"
    );
}

#[test]
fn anchors_with_artifacts_and_rank_refusals() {
    assert!(refuse_artifact_bearing_anchor(NodeType::Anchor, 0, "complete").is_ok());
    assert!(refuse_artifact_bearing_anchor(NodeType::Task, 3, "complete").is_ok());
    assert_eq!(
        invalid(refuse_artifact_bearing_anchor(NodeType::Anchor, 1, "archive").unwrap_err()),
        "cannot archive an artifact-bearing anchor; move or remove its artifacts first"
    );
    assert_eq!(rank_target(Some("HV-2".into()), None).unwrap(), ("HV-2".to_string(), true));
    assert_eq!(rank_target(None, Some("HV-3".into())).unwrap(), ("HV-3".to_string(), false));
    assert!(rank_target(None, None).is_err());
    assert!(rank_target(Some("a".into()), Some("b".into())).is_err());
    assert!(rank_refusal(1, 2, NodeType::Task, NodeType::Task).is_ok());
    assert!(rank_refusal(1, 1, NodeType::Task, NodeType::Task).is_err());
    assert!(rank_refusal(1, 2, NodeType::Anchor, NodeType::Task).is_err());
    assert!(rank_refusal(1, 2, NodeType::Task, NodeType::Anchor).is_err());
}

#[test]
fn handoff_note_records_the_baton() {
    assert!(handoff_note(OwnerKind::Human, OwnerKind::Ai, &HandoffInput::default()).is_none());
    let opts = HandoffInput { note: Some("over to you"), actor: Some("agent-7"), ..Default::default() };
    let a = handoff_note(OwnerKind::Human, OwnerKind::Ai, &opts).unwrap();
    assert_eq!(a.role, ArtifactRole::Handoff);
    assert_eq!(a.kind, ArtifactKind::File);
    assert_eq!(a.content.as_deref(), Some("over to you"));
    assert_eq!(a.from_owner, Some(OwnerKind::Ai));
    assert_eq!(a.to_owner, Some(OwnerKind::Human));
    assert_eq!(a.created_by.as_deref(), Some("agent-7"));
    let name = a.name.unwrap();
    let millis = name.strip_prefix("handoff-").and_then(|r| r.strip_suffix(".md")).unwrap();
    assert!(!millis.is_empty() && millis.chars().all(|c| c.is_ascii_digit()), "{name}");
    assert!(millis.parse::<u128>().unwrap() > 0, "the clock is read: {name}");
}

#[test]
fn evidence_defaults_to_a_delivery_artifact() {
    assert!(evidence_artifact(&CompleteInput::default()).is_none());
    let a = evidence_artifact(&CompleteInput { evidence: Some("tests pass"), by: Some("me"), ..Default::default() })
        .unwrap();
    assert_eq!(a.role, ArtifactRole::Delivery);
    assert_eq!(a.content.as_deref(), Some("tests pass"));
    assert_eq!(a.created_by.as_deref(), Some("me"));
    assert!(a.name.is_none());
    let b = evidence_artifact(&CompleteInput {
        evidence: Some("see spec"),
        artifact_role: Some(ArtifactRole::Spec),
        by: None,
    })
    .unwrap();
    assert_eq!(b.role, ArtifactRole::Spec);
    assert!(b.created_by.is_none());
}

#[test]
fn guarded_add_looks_up_only_with_if_absent_and_a_real_title() {
    assert_eq!(dedupe_title(false, "Fix the Build"), None);
    assert_eq!(dedupe_title(true, "  Fix   the Build!! "), Some("fix the build".to_string()));
    assert_eq!(dedupe_title(true, " ?! "), None);
}

#[test]
fn normalize_title_strips_one_trailing_punctuation_run() {
    // Only the run at the very end goes; punctuation that a trailing space
    // separates from it stays, so normalizing twice can strip more.
    assert_eq!(normalize_title("x ! ."), "x !");
    assert_eq!(normalize_title("x !"), "x");
}
