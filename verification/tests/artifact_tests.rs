use haven_core::artifact::{
    artifact_file_name, artifact_location, check_collision, check_new_artifact, choose_for_read,
    find_by_path, metadata_text, note_line, stored_metadata, note_path, plan_rename, select_artifact, unreadable_content, NewArtifact,
};
use haven_core::error::HavenError;
use haven_core::json::Json;
use haven_core::model::{Artifact, ArtifactKind, ArtifactRole, ArtifactSelector, OwnerKind, SyncState};

fn art(id: &str, role: ArtifactRole, path: Option<&str>) -> Artifact {
    Artifact {
        id: 0,
        public_id: id.to_string(),
        node_ref: Some("HV-1".to_string()),
        role,
        kind: if path.is_some() { ArtifactKind::File } else { ArtifactKind::External },
        path: path.map(|p| p.to_string()),
        uri: None,
        title: None,
        excerpt: None,
        from_owner: None,
        to_owner: None,
        content_hash: None,
        remote_path: None,
        metadata: None,
        created_at: "2026-01-01".to_string(),
        created_by: None,
        revision: 1,
        sync_state: SyncState::Local,
    }
}

fn invalid(e: HavenError) -> String {
    match e {
        HavenError::Invalid(m) => m,
        other => panic!("expected an invalid error, got {other:?}"),
    }
}

#[test]
fn new_artifact_requests_are_checked_in_order() {
    let handoff = NewArtifact { role: ArtifactRole::Handoff, content: Some("x".into()), ..Default::default() };
    assert_eq!(invalid(check_new_artifact(&handoff).unwrap_err()), "a handoff artifact must carry --from and --to");
    let both = NewArtifact { file: Some("a".into()), content: Some("b".into()), ..Default::default() };
    assert_eq!(
        invalid(check_new_artifact(&both).unwrap_err()),
        "provide either a source --file or inline --content, not both"
    );
    let neither = NewArtifact::default();
    assert_eq!(
        invalid(check_new_artifact(&neither).unwrap_err()),
        "a file artifact requires --file <path> or inline --content"
    );
    let external = NewArtifact { kind: ArtifactKind::External, ..Default::default() };
    assert_eq!(invalid(check_new_artifact(&external).unwrap_err()), "an external artifact requires --uri");
    let ok = NewArtifact {
        role: ArtifactRole::Handoff,
        from_owner: Some(OwnerKind::Ai),
        to_owner: Some(OwnerKind::Human),
        content: Some("note".into()),
        ..Default::default()
    };
    assert!(check_new_artifact(&ok).is_ok());
    let bad_meta = NewArtifact { content: Some("x".into()), metadata: Some(Json::Bool(true)), ..Default::default() };
    assert!(check_new_artifact(&bad_meta).is_err());
}

#[test]
fn metadata_column_text() {
    assert_eq!(metadata_text(&None), "{}");
    assert_eq!(metadata_text(&Some(Json::Null)), "{}");
    let m = Json::Object(vec![("a".to_string(), Json::Number("1".to_string()))]);
    assert_eq!(metadata_text(&Some(m)), "{\"a\":1}");
}

#[test]
fn file_names_and_locations() {
    assert_eq!(artifact_file_name(ArtifactRole::Research, &None, true, &None).unwrap(), "research.md");
    assert_eq!(artifact_file_name(ArtifactRole::Spec, &Some("x.md".into()), true, &None).unwrap(), "x.md");
    assert_eq!(artifact_file_name(ArtifactRole::Spec, &None, false, &Some("src.txt".into())).unwrap(), "src.txt");
    assert_eq!(invalid(artifact_file_name(ArtifactRole::Spec, &None, false, &None).unwrap_err()), "source has no file name");
    assert_eq!(
        artifact_location("HV-3", ArtifactRole::Spec, "design.md").unwrap(),
        ("items/HV-3".to_string(), "items/HV-3/design.md".to_string())
    );
    assert_eq!(
        artifact_location("HV-3", ArtifactRole::Handoff, "n.md").unwrap(),
        ("items/HV-3/notes".to_string(), "items/HV-3/notes/n.md".to_string())
    );
    assert!(artifact_location("HV-3", ArtifactRole::Spec, "../x").is_err());
    assert!(artifact_location("HV-3", ArtifactRole::Spec, "a/b").is_err());
}

#[test]
fn collisions_are_by_path_and_refused_without_replace() {
    let arts = vec![art("id-1", ArtifactRole::Spec, Some("items/HV-1/design.md"))];
    assert_eq!(find_by_path(&arts, "items/HV-1/design.md"), Some(0));
    assert_eq!(find_by_path(&arts, "items/HV-1/other.md"), None);
    assert!(check_collision(None, "HV-1", false).is_ok());
    assert!(check_collision(Some(&arts[0]), "HV-1", true).is_ok());
    assert_eq!(
        invalid(check_collision(Some(&arts[0]), "HV-1", false).unwrap_err()),
        "an artifact already exists at \"items/HV-1/design.md\" on \"HV-1\" (role spec, id id-1); pass --replace to overwrite it, or remove it first with `haven artifact rm`"
    );
}

#[test]
fn reads_pick_by_path_then_latest_of_role_then_latest() {
    let arts = vec![
        art("a", ArtifactRole::Spec, Some("items/HV-1/a.md")),
        art("b", ArtifactRole::Research, Some("items/HV-1/b.md")),
        art("c", ArtifactRole::Spec, Some("items/HV-1/c.md")),
    ];
    assert_eq!(choose_for_read(&arts, None, Some("items/HV-1/b.md"), "HV-1").unwrap(), 1);
    assert_eq!(choose_for_read(&arts, Some(ArtifactRole::Spec), None, "HV-1").unwrap(), 2);
    assert_eq!(choose_for_read(&arts, None, None, "HV-1").unwrap(), 2);
    match choose_for_read(&arts, Some(ArtifactRole::Vision), None, "HV-1").unwrap_err() {
        HavenError::NotFound(m) => assert_eq!(m, "artifact on \"HV-1\""),
        other => panic!("{other:?}"),
    }
    assert!(choose_for_read(&[], None, None, "HV-1").is_err());
}

#[test]
fn missing_content_is_typed_when_synced_elsewhere() {
    let e = unreadable_content("p".into(), "a.md".into(), Some("/r/a.md".into()), None, false, "/x/a.md", "gone");
    assert_eq!(e.code(), "content_not_local");
    let e = unreadable_content("p".into(), "a.md".into(), None, None, false, "/x/a.md", "gone");
    match e {
        HavenError::NotFound(m) => assert_eq!(m, "content file /x/a.md not present locally: gone"),
        other => panic!("{other:?}"),
    }
}

#[test]
fn selectors_resolve_to_exactly_one_artifact() {
    let arts = vec![
        art("a", ArtifactRole::Spec, Some("items/HV-1/a.md")),
        art("b", ArtifactRole::Spec, Some("items/HV-1/notes/b.md")),
        art("c", ArtifactRole::Research, None),
    ];
    assert_eq!(select_artifact(&arts, &ArtifactSelector::Name("b.md".into())).unwrap(), 1);
    assert_eq!(select_artifact(&arts, &ArtifactSelector::Id("c".into())).unwrap(), 2);
    assert_eq!(select_artifact(&arts, &ArtifactSelector::Role(ArtifactRole::Research)).unwrap(), 2);
    assert_eq!(
        invalid(select_artifact(&arts, &ArtifactSelector::Role(ArtifactRole::Spec)).unwrap_err()),
        "selector Role(Spec) is ambiguous — matched 2 artifacts; disambiguate by --name or --id (a.md (a), b.md (b))"
    );
    match select_artifact(&arts, &ArtifactSelector::Name("zz.md".into())).unwrap_err() {
        HavenError::NotFound(m) => assert_eq!(m, "no artifact matched Name(\"zz.md\")"),
        other => panic!("{other:?}"),
    }
}

#[test]
fn renames_keep_the_directory_and_refuse_collisions() {
    let arts = vec![
        art("a", ArtifactRole::Spec, Some("items/HV-1/a.md")),
        art("b", ArtifactRole::Handoff, Some("items/HV-1/notes/b.md")),
        art("c", ArtifactRole::Research, None),
        art("d", ArtifactRole::Spec, Some("top.md")),
    ];
    assert_eq!(plan_rename(&arts, 1, "c.md", "HV-1").unwrap(), Some("items/HV-1/notes/c.md".to_string()));
    assert_eq!(plan_rename(&arts, 0, "a.md", "HV-1").unwrap(), None);
    assert_eq!(plan_rename(&arts, 3, "new.md", "HV-1").unwrap(), Some("new.md".to_string()));
    assert_eq!(
        invalid(plan_rename(&arts, 2, "x.md", "HV-1").unwrap_err()),
        "only a file artifact (with a path) can be renamed"
    );
    assert!(invalid(plan_rename(&arts, 0, "../x", "HV-1").unwrap_err()).contains("must be a plain file name"));
    let arts2 = vec![
        art("a", ArtifactRole::Spec, Some("items/HV-1/a.md")),
        art("b", ArtifactRole::Spec, Some("items/HV-1/b.md")),
    ];
    assert_eq!(
        invalid(plan_rename(&arts2, 0, "b.md", "HV-1").unwrap_err()),
        "an artifact already exists at \"items/HV-1/b.md\" on \"HV-1\"; rename or remove it first"
    );
}

#[test]
fn notes_go_to_one_dated_file_per_day() {
    assert_eq!(note_path("HV-7", (2026, 3, 9)), "items/HV-7/notes/2026-03-09.md");
    assert_eq!(note_line("called the vendor"), "- called the vendor\n");
}

#[test]
fn empty_metadata_reads_back_as_none() {
    assert_eq!(stored_metadata(Json::Null).is_none(), true);
    assert!(stored_metadata(Json::Object(vec![])).is_none());
    let kept = stored_metadata(Json::Object(vec![("xref".to_string(), Json::Array(vec![]))]));
    assert!(matches!(kept, Some(Json::Object(ref m)) if m.len() == 1 && m[0].0 == "xref"));
    assert!(matches!(stored_metadata(Json::Bool(false)), Some(Json::Bool(false))));
}
