use haven_core::error::HavenError;
use haven_core::model::{Project, ProjectStatus, SyncState};
use haven_core::project::{
    archive_project_row, available_projects_hint, check_use_project, check_writable, project_not_found,
    project_prefix, reopen_project_row, select_project_key,
};

fn invalid(e: HavenError) -> String {
    match e {
        HavenError::Invalid(m) => m,
        other => panic!("expected an invalid error, got {other:?}"),
    }
}

fn project() -> Project {
    Project {
        id: 1,
        public_id: "p-1".into(),
        key: "haven".into(),
        ref_prefix: "HV".into(),
        ref_counter: 41,
        title: "Haven".into(),
        description: Some("the backlog".into()),
        created_at: "2026-01-01 00:00:00".into(),
        updated_at: "2026-01-01 00:00:00".into(),
        revision: 3,
        sync_state: SyncState::Synced,
        status: ProjectStatus::Active,
        archived_at: None,
        archived_reason: None,
        deleted_at: None,
    }
}

#[test]
fn prefixes_default_to_the_key_upper_cased() {
    assert_eq!(project_prefix("haven", None).unwrap(), "HA");
    assert_eq!(project_prefix("haven", Some("hv")).unwrap(), "HV");
    assert_eq!(project_prefix("x", None).unwrap(), "X");
    assert_eq!(invalid(project_prefix("   ", Some("hv")).unwrap_err()), "project key must not be empty");
}

#[test]
fn selection_falls_back_to_the_current_project() {
    assert_eq!(select_project_key(Some("web"), Some("haven".into()), "").unwrap(), "web");
    assert_eq!(select_project_key(None, Some("haven".into()), "").unwrap(), "haven");
    let hint = available_projects_hint(&vec!["haven".into(), "web".into()]);
    assert_eq!(hint, " — available projects: haven, web");
    let err = invalid(select_project_key(None, None, &hint).unwrap_err());
    assert!(err.starts_with("no project selected; pass `project` (MCP)"), "{err}");
    assert!(err.ends_with("available projects: haven, web"), "{err}");
    assert!(available_projects_hint(&vec![]).contains("no projects exist yet"));
    match project_not_found("gone", " — available projects: haven") {
        HavenError::NotFound(m) => assert_eq!(m, "project \"gone\" — available projects: haven"),
        other => panic!("expected not found, got {other:?}"),
    }
}

#[test]
fn archived_projects_can_be_read_but_not_used_or_written() {
    assert!(check_use_project("haven", ProjectStatus::Active).is_ok());
    assert_eq!(
        invalid(check_use_project("haven", ProjectStatus::Archived).unwrap_err()),
        "project \"haven\" is archived; reopen it first"
    );
    assert!(check_writable("haven", ProjectStatus::Active).is_ok());
    assert_eq!(
        invalid(check_writable("haven", ProjectStatus::Archived).unwrap_err()),
        "project \"haven\" is archived; reopen it to add or change items"
    );
}

#[test]
fn archive_is_idempotent_and_reopen_restores() {
    let p = project();
    let (a, clear) = archive_project_row(p.clone(), Some("paused".into()), "2026-02-01 10:00:00".into(), Some("haven"));
    assert!(clear, "the current selection named the archived project");
    assert_eq!(a.status, ProjectStatus::Archived);
    assert_eq!(a.archived_at.as_deref(), Some("2026-02-01 10:00:00"));
    assert_eq!(a.archived_reason.as_deref(), Some("paused"));
    assert_eq!(a.revision, 4);
    assert_eq!(a.sync_state, SyncState::Local);
    assert_eq!((a.key.as_str(), a.ref_prefix.as_str(), a.ref_counter), ("haven", "HV", 41));

    // Archiving again changes nothing, not even the revision, and clears nothing.
    let (again, clear) = archive_project_row(a.clone(), None, "2026-03-01 10:00:00".into(), Some("haven"));
    assert_eq!(again, a);
    assert!(!clear);

    let (_, clear) = archive_project_row(p.clone(), None, "2026-02-01 10:00:00".into(), Some("web"));
    assert!(!clear, "another current project stays selected");

    let r = reopen_project_row(a, "2026-02-02 09:00:00".into()).unwrap();
    assert_eq!(r.status, ProjectStatus::Active);
    assert_eq!(r.archived_at, None);
    assert_eq!(r.archived_reason, None);
    assert_eq!(r.revision, 5);
    assert_eq!((r.key.as_str(), r.ref_prefix.as_str(), r.ref_counter), ("haven", "HV", 41));
    assert_eq!(r.title, p.title);
    assert_eq!(r.description, p.description);

    assert_eq!(
        invalid(reopen_project_row(p, "2026-02-02 09:00:00".into()).unwrap_err()),
        "cannot reopen a project that is not archived"
    );
}
