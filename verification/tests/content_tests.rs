use haven_core::content::{
    backlog_line, basename, canonical_groups, context_pack_from, duplicate_findings, is_haven_ref,
    is_relocation_tombstone, normalize_key, pointer_findings, pointer_hits, project_xref_issues,
    tombstone_findings, validate_plain_name, RawXref,
};
use haven_core::json::Json;
use haven_core::model::{
    ArtifactRole, ContextPack, IntegrityKind, Item, NodeType, RollupState, Status, SyncState,
    XrefRelation,
};
use haven_core::xref_report::xref_report;

fn item(reference: &str, title: &str, status: Status, node_type: NodeType) -> Item {
    Item {
        id: 1,
        public_id: "p".into(),
        reference: reference.into(),
        project: "haven".into(),
        title: title.into(),
        body: None,
        done_looks_like: None,
        why: None,
        due_at: None,
        node_type,
        status,
        owner_kind: None,
        assignee: None,
        wait_state: None,
        committed: true,
        priority: None,
        sort_key: None,
        metadata: Json::Null,
        created_at: "".into(),
        updated_at: "".into(),
        archived_at: None,
        revision: 1,
        sync_state: SyncState::Local,
        rollup_state: None,
        owner_rollup: None,
        has_uncommitted_descendants: None,
        edges: None,
        artifacts: None,
        lineage: None,
        context_pack: None,
        context_pack_clash: None,
    }
}

fn raw(node: &str, artifact: &str, store: Option<&str>, target: Option<&str>, canonical: bool) -> RawXref {
    RawXref {
        node_ref: node.into(),
        artifact: artifact.into(),
        role: ArtifactRole::Spec,
        path: Some(format!("items/{node}/design.md")),
        relation_raw: Some("mirror".into()),
        relation_invalid: false,
        relation: Some(XrefRelation::Mirror),
        store: store.map(|s| s.to_string()),
        target: target.map(|s| s.to_string()),
        canonical,
    }
}

#[test]
fn plain_names_and_basenames() {
    assert!(validate_plain_name("design.md").is_ok());
    for bad in ["", "a/b", "a\\b", ".."] {
        assert!(validate_plain_name(bad).is_err(), "{bad:?}");
    }
    assert_eq!(basename("items/HV-1/design.md"), "design.md");
    assert_eq!(basename("design.md"), "design.md");
    assert_eq!(basename("dir/"), "");
}

#[test]
fn haven_refs_and_keys() {
    assert!(is_haven_ref("HV", "HV-12"));
    assert!(!is_haven_ref("HV", "HV-"));
    assert!(!is_haven_ref("HV", "HV-1a"));
    assert!(!is_haven_ref("HV", "https://x/HV-1"));
    assert_eq!(normalize_key("  github.com/org/repo//  "), "github.com/org/repo");
}

#[test]
fn context_pack_pointer_from_containers() {
    assert_eq!(context_pack_from(vec![]), (None, None));
    let (pack, clash) = context_pack_from(vec!["HV-2".into()]);
    assert_eq!(pack, Some(ContextPack { container: "HV-2".into(), artifact: "context-pack.md".into() }));
    assert_eq!(clash, None);
    let (pack, clash) = context_pack_from(vec!["HV-2".into(), "HV-3".into()]);
    assert_eq!(pack, None);
    assert_eq!(clash, Some(vec!["HV-2".to_string(), "HV-3".to_string()]));
}

#[test]
fn context_pack_integrity_flags_tombstones_pointers_and_dupes() {
    assert!(is_relocation_tombstone("  moved to HV-9"));
    assert!(is_relocation_tombstone("RELOCATED"));
    assert!(!is_relocation_tombstone("# Pack\nmoved later"));
    let packs = vec![
        (1, "HV-1".to_string(), Some("MOVED → HV-9".to_string())),
        (1, "HV-1".to_string(), Some("relocated".to_string())),
        (2, "HV-2".to_string(), Some("# real pack".to_string())),
        (3, "HV-3".to_string(), None),
    ];
    let (tombs, issues) = tombstone_findings(&packs);
    assert_eq!(tombs, vec![(1, "HV-1".to_string())]);
    assert_eq!(issues.len(), 1);
    assert_eq!(issues[0].kind, IntegrityKind::TombstonePack);
    assert_eq!(
        issues[0].detail,
        "HV-1 carries a context-pack.md whose content is a relocation tombstone, not a real pack — remove it via `haven artifact rm`"
    );

    let tomb_refs = vec!["HV-1".to_string()];
    let pack = Some(ContextPack { container: "HV-1".into(), artifact: "context-pack.md".into() });
    let members = vec![
        (10, "HV-10".to_string(), pack.clone(), None),
        (10, "HV-10".to_string(), pack.clone(), None),
        (11, "HV-11".to_string(), None, Some(vec!["HV-5".to_string(), "HV-1".to_string()])),
        (12, "HV-12".to_string(), None, None),
    ];
    assert!(pointer_hits(&pack, &None, &tomb_refs));
    let found = pointer_findings(&members, &tomb_refs);
    let nodes: Vec<&str> = found.iter().map(|i| i.node.as_str()).collect();
    assert_eq!(nodes, vec!["HV-10", "HV-11"]);
    assert_eq!(found[0].detail, "HV-10 advertises a context_pack that resolves to a relocation tombstone");

    let dups = duplicate_findings(&[("HV-4".to_string(), "items/HV-4/a.md".to_string(), 2)]);
    assert_eq!(dups[0].kind, IntegrityKind::DuplicateArtifactRow);
    assert_eq!(dups[0].detail, "HV-4 has 2 artifact rows for the same path items/HV-4/a.md");
}

#[test]
fn backlog_line_annotates_container_rollup() {
    let phase = item("HV-1", "Track", Status::Discovery, NodeType::Phase);
    let line = backlog_line(&phase, &vec![], Some((RollupState::Done, true)));
    assert!(line.contains("[rollup: done +uncommitted]"), "{line}");
    let leaf = item("HV-2", "solo leaf", Status::Discovery, NodeType::Task);
    let leaf_line = backlog_line(&leaf, &vec!["HV-3".to_string()], None);
    assert!(!leaf_line.contains("[rollup:"), "{leaf_line}");
    assert!(leaf_line.contains("HV-3"), "{leaf_line}");
}

#[test]
fn xref_integrity_flags_conflict_dangling_invalid_and_unknown_store() {
    let mut invalid = raw("HV-4", "a4", Some("github"), None, false);
    invalid.relation = None;
    let raws = vec![
        raw("HV-1", "a1", Some("github"), Some("org/repo"), true),
        raw("HV-2", "a2", Some("github"), Some("org/repo/"), true),
        raw("HV-3", "a3", Some("haven"), Some("HV-99"), false),
        invalid,
        raw("HV-5", "a5", Some("dropbox"), Some("x"), false),
    ];
    let groups = canonical_groups(&raws);
    assert_eq!(groups.len(), 1);
    assert_eq!(groups[0].nodes, vec!["HV-1".to_string(), "HV-2".to_string()]);
    let live = vec![true, true, false, true, true];
    let issues = project_xref_issues("HV", &raws, &live);
    let kinds: Vec<IntegrityKind> = issues.iter().map(|i| i.kind).collect();
    assert_eq!(
        kinds,
        vec![
            IntegrityKind::CanonicalConflict,
            IntegrityKind::CanonicalConflict,
            IntegrityKind::DanglingXref,
            IntegrityKind::DanglingXref,
            IntegrityKind::UnknownStore,
        ]
    );
    assert_eq!(issues[2].detail, "HV-3: xref target HV-99 is a Haven ref resolving to no live node");
    assert_eq!(issues[3].detail, "HV-4: structurally-invalid xref — missing required `target`");
    assert_eq!(
        issues[4].detail,
        "HV-5: xref store \"dropbox\" is not a recognized store (servo, vault, github, haven)"
    );
}

#[test]
fn xref_verb_outbound_and_inbound_backlinks() {
    let mut pathless = raw("HV-1", "z9", Some("vault"), Some("note"), false);
    pathless.path = None;
    let raws = vec![
        raw("HV-1", "b2", Some("vault"), Some("b"), false),
        raw("HV-1", "a1", Some("github"), Some("a"), false),
        pathless,
        raw("HV-3", "c3", Some("haven"), Some("HV-1"), false),
        raw("HV-2", "d4", Some("haven"), Some("HV-1"), false),
        raw("HV-5", "e5", Some("github"), Some("HV-1"), false),
        raw("HV-6", "f6", Some("haven"), Some("HV-7"), false),
    ];
    // Whether each target resolves to HV-1 among the live nodes.
    let here = vec![false, false, false, true, true, true, false];
    let report = xref_report("HV-1".to_string(), "HV", &raws, &here);
    let out: Vec<&str> = report.outbound.iter().map(|o| o.artifact.as_str()).collect();
    assert_eq!(out, vec!["z9", "a1", "b2"]);
    let inbound: Vec<&str> = report.inbound.iter().map(|i| i.source.as_str()).collect();
    assert_eq!(inbound, vec!["HV-2", "HV-3", "HV-5"]);
}
