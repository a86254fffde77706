use haven_core::backup::listing::{
    backup_entry, check_quarantine_id, daily_backup_due, is_junk, is_reserved_name, manifest_file_name,
    manifest_id, newest_first, next_lock_move, object_rel_path, reaps_object, sorted_names, sweeps_temp,
    BackupFormat, LockCreate, LockMove,
};
use haven_core::backup::Integrity;

#[test]
fn manifest_ids_come_from_json_names() {
    assert_eq!(manifest_id("20260619T120000Z.json"), Some("20260619T120000Z".to_string()));
    assert_eq!(manifest_id("20260619T120000Z-SUSPECT.json"), Some("20260619T120000Z-SUSPECT".to_string()));
    assert_eq!(manifest_id(".tmp-1-x.json"), None);
    assert_eq!(manifest_id("notes.txt"), None);
    assert_eq!(manifest_file_name("20260619T120000Z", Integrity::Intact), "20260619T120000Z.json");
    assert_eq!(manifest_file_name("20260619T120000Z", Integrity::Suspect), "20260619T120000Z-SUSPECT.json");
}

#[test]
fn reserved_and_junk_names() {
    for n in ["objects", "manifests", ".lock", ".quarantine", ".restore-staging"] {
        assert!(is_reserved_name(n));
    }
    assert!(!is_reserved_name("20260619T120000Z"));
    for n in [".DS_Store", "Thumbs.db", "a.swp", "a.swo", "a~"] {
        assert!(is_junk(n));
    }
    assert!(!is_junk("design.md"));
}

#[test]
fn objects_fan_out_by_their_first_two_characters() {
    assert_eq!(object_rel_path("abcdef"), "ab/abcdef");
}

#[test]
fn entries_strip_the_quarantine_suffix() {
    let e = backup_entry("20260619T120000Z-SUSPECT", 7, BackupFormat::Legacy);
    assert_eq!(e.created_at, "20260619T120000Z");
    assert_eq!(e.integrity, Integrity::Suspect);
    assert_eq!(e.size_bytes, 7);
    assert_eq!(e.format, BackupFormat::Legacy);
    let e = backup_entry("20260619T120000Z", 0, BackupFormat::Manifest);
    assert_eq!(e.created_at, "20260619T120000Z");
    assert_eq!(e.integrity, Integrity::Intact);
}

#[test]
fn listings_sort_newest_first_and_names_ascending() {
    let es = vec![
        backup_entry("20260102T000000Z", 0, BackupFormat::Manifest),
        backup_entry("20260301T000000Z", 0, BackupFormat::Manifest),
        backup_entry("20260201T000000Z", 0, BackupFormat::Legacy),
    ];
    let ids: Vec<String> = newest_first(es).into_iter().map(|e| e.id).collect();
    assert_eq!(ids, vec!["20260301T000000Z", "20260201T000000Z", "20260102T000000Z"]);
    let names = vec!["b".to_string(), "a".to_string(), "c".to_string(), "a".to_string()];
    assert_eq!(sorted_names(names), vec!["a", "a", "b", "c"]);
    assert!(newest_first(vec![]).is_empty());
}

#[test]
fn quarantine_ids_must_carry_the_suffix() {
    assert!(check_quarantine_id("20260619T120000Z-SUSPECT").is_ok());
    assert!(check_quarantine_id("20260619T120000Z").is_err());
}

#[test]
fn the_daily_backup_is_due_once_a_day() {
    let frozen: Vec<String> = vec![];
    assert!(daily_backup_due(None, (2026, 6, 19), &frozen));
    assert!(!daily_backup_due(Some("2026-06-19"), (2026, 6, 19), &frozen));
    assert!(daily_backup_due(Some("2026-06-18"), (2026, 6, 19), &frozen));
    let frozen = vec!["20260619T080000Z-SUSPECT".to_string()];
    assert!(!daily_backup_due(None, (2026, 6, 19), &frozen));
    assert!(daily_backup_due(None, (2026, 6, 20), &frozen));
}

#[test]
fn collection_spares_hidden_live_and_young_objects() {
    assert!(reaps_object("ab12", false, true));
    assert!(!reaps_object("ab12", true, true), "a referenced object stays");
    assert!(!reaps_object("ab12", false, false), "a young object stays");
    assert!(!reaps_object(".quarantine", false, true), "hidden entries are never touched");
    assert!(sweeps_temp(".tmp-42-7", true));
    assert!(!sweeps_temp(".tmp-42-7", false));
    assert!(!sweeps_temp("ab12", true));
}

#[test]
fn a_stale_lock_is_stolen_once() {
    assert_eq!(next_lock_move(false, LockCreate::Created, false), LockMove::Acquired);
    assert_eq!(next_lock_move(false, LockCreate::Exists, false), LockMove::Busy);
    assert_eq!(next_lock_move(false, LockCreate::Exists, true), LockMove::Steal);
    assert_eq!(next_lock_move(true, LockCreate::Exists, true), LockMove::Busy);
    assert_eq!(next_lock_move(true, LockCreate::Created, true), LockMove::Acquired);
    assert_eq!(next_lock_move(false, LockCreate::Failed, true), LockMove::Fail);
}
