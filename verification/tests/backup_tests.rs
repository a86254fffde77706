use std::collections::HashSet;

use haven_core::backup::manifest::{body_checksum, validate, verification_verdict, DbHandle, Manifest, PathEntry, ProjectEntry, MANIFEST_VERSION};
use haven_core::backup::objects::{gunzip, gzip_fast, object_intact, pack_object, unpack_object, ContentHasher};
use haven_core::backup::snapshot::{entry_path, is_project_dir, report_from_manifest, snapshot_integrity, sort_entries};
use haven_core::backup::restore::{restore_step, RestoreAction, RestoreStage};
use haven_core::backup::rotation::{has_suspect_suffix, parse_stamp, plan_rotation};
use haven_core::backup::{strip_suspect, suspect_of, Integrity};
use haven_core::error::HavenError;
use haven_core::time::{days_from_civil, utc_stamp};

fn stamp(y: i64, m: u32, d: u32) -> String {
    utc_stamp(days_from_civil(y, m, d) * 86_400 + 12 * 3600)
}

fn rotation_scenario() {
    let start = days_from_civil(2026, 1, 1);
    let end = days_from_civil(2026, 2, 9);
    let real: Vec<String> = (start..=end).map(|z| utc_stamp(z * 86_400 + 12 * 3600)).collect();
    assert_eq!(real.len(), 40);

    let mut names = real.clone();
    names.push("20260210T120000Z-SUSPECT".into());
    names.push("not-a-timestamp".into());

    let deleted: HashSet<String> = plan_rotation(&names, 7, 4).into_iter().collect();
    assert!(!deleted.contains("20260210T120000Z-SUSPECT"));
    assert!(!deleted.contains("not-a-timestamp"));

    let kept: Vec<&String> = real.iter().filter(|n| !deleted.contains(*n)).collect();
    assert_eq!(kept.len(), 9, "7 daily + 2 distinct older weekly");
    for (m, d) in [(2, 9), (2, 8), (2, 7), (2, 6), (2, 5), (2, 4), (2, 3), (2, 1), (1, 25)] {
        assert!(!deleted.contains(&stamp(2026, m, d)), "should keep {m}-{d}");
    }
    for (m, d) in [(2, 2), (1, 24), (1, 1)] {
        assert!(deleted.contains(&stamp(2026, m, d)), "should delete {m}-{d}");
    }
}

#[test]
fn backup_plan_rotation_keeps_7_daily_and_4_weekly() {
    rotation_scenario();
}

#[test]
fn mod_plan_rotation_keeps_7_daily_and_4_weekly() {
    rotation_scenario();
}

#[test]
fn rotation_returns_doomed_names_newest_first() {
    let names: Vec<String> = vec![stamp(2026, 1, 1), stamp(2026, 1, 3), stamp(2026, 1, 2)];
    assert_eq!(plan_rotation(&names, 1, 0), vec![stamp(2026, 1, 2), stamp(2026, 1, 1)]);
    assert_eq!(plan_rotation(&names, 0, 0), vec![stamp(2026, 1, 3), stamp(2026, 1, 2), stamp(2026, 1, 1)]);
    assert_eq!(plan_rotation(&names, 3, 0), Vec::<String>::new());
    assert_eq!(plan_rotation(&[], 7, 4), Vec::<String>::new());
}

#[test]
fn rotation_keeps_only_the_newest_of_a_day() {
    let z = days_from_civil(2026, 3, 3);
    let early = utc_stamp(z * 86_400 + 3600);
    let late = utc_stamp(z * 86_400 + 7200);
    let names = vec![late.clone(), early.clone()];
    assert_eq!(plan_rotation(&names, 1, 0), vec![early]);
}

#[test]
fn rotation_with_nothing_kept_deletes_every_parseable_name() {
    let names = vec![stamp(2026, 1, 1), "x".to_string(), "20260101T120000Z-SUSPECT".to_string()];
    assert_eq!(plan_rotation(&names, 0, 0), vec![stamp(2026, 1, 1)]);
}

#[test]
fn stamps_parse_and_suspects_are_recognised() {
    assert!(parse_stamp("20260619T130509Z").is_some());
    assert!(parse_stamp("20260619T130509").is_none());
    assert!(parse_stamp("2026061xT130509Z").is_none());
    assert!(has_suspect_suffix("20260619T130509Z-SUSPECT"));
    assert!(!has_suspect_suffix("20260619T130509Z"));
    assert_eq!(suspect_of("20260619T130509Z-SUSPECT"), Integrity::Suspect);
    assert_eq!(suspect_of("20260619T130509Z"), Integrity::Intact);
    assert_eq!(strip_suspect("20260619T130509Z-SUSPECT"), "20260619T130509Z");
    assert_eq!(strip_suspect("20260619T130509Z"), "20260619T130509Z");
}

fn sample() -> Manifest {
    Manifest::new(
        "20260619T120000Z".into(),
        Integrity::Intact,
        DbHandle { repr: "gz-full".into(), object: "a".repeat(64) },
        vec![ProjectEntry {
            key: "haven".into(),
            paths: vec![
                PathEntry::File { path: "items/HV-1/design.md".into(), hash: "b".repeat(64), size: 12 },
                PathEntry::Symlink { path: "items/HV-2".into(), target: "../HV-1".into() },
            ],
        }],
    )
}

fn message(e: HavenError) -> String {
    match e {
        HavenError::Invalid(m) => m,
        other => panic!("expected an invalid error, got {other:?}"),
    }
}

#[test]
fn tampered_path_count_is_rejected() {
    let mut m = sample();
    m.path_count = 99;
    assert!(validate(&m).is_err());
}

#[test]
fn tampered_body_is_rejected() {
    let mut m = sample();
    m.ts = "20260619T130000Z".into();
    assert!(validate(&m).is_err());
}

#[test]
fn built_manifest_is_accepted_and_counts_paths() {
    let m = sample();
    assert_eq!(m.version, MANIFEST_VERSION);
    assert_eq!(m.path_count, 2);
    assert_eq!(m.hash_algo, "sha256");
    assert_eq!(m.compression, "gzip");
    assert_eq!(m.body_checksum.len(), 64);
    assert_eq!(m.body_checksum, body_checksum(&m));
    assert!(validate(&m).is_ok());
    // db object + one file hash (a symlink owns none).
    let refs = m.referenced_objects();
    assert_eq!(refs.len(), 2);
    assert!(refs.contains(&"a".repeat(64)));
    assert!(refs.contains(&"b".repeat(64)));
}

#[test]
fn checksum_depends_on_the_body() {
    let a = sample();
    let mut b = sample();
    b.integrity = Integrity::Suspect;
    let b = Manifest::new(b.ts, b.integrity, b.db, b.projects);
    assert_ne!(a.body_checksum, b.body_checksum);
    assert!(validate(&b).is_ok());
}

#[test]
fn validation_messages_name_the_fault() {
    let mut m = sample();
    m.version = 2;
    assert!(message(validate(&m).unwrap_err()).contains("version"));
    let mut m = sample();
    m.path_count = 99;
    assert!(message(validate(&m).unwrap_err()).contains("path_count"));
    let mut m = sample();
    m.ts = "20260619T130000Z".into();
    assert!(message(validate(&m).unwrap_err()).contains("checksum"));
}

#[test]
fn restamp_refreshes_the_checksum() {
    let mut m = sample();
    m.restamp("20260620T120000Z".into());
    assert_eq!(m.ts, "20260620T120000Z");
    assert!(validate(&m).is_ok());
    m.ts = "20260619T130000Z".into();
    assert!(validate(&m).is_err());
    m.restamp("20260619T130000Z".into());
    assert!(validate(&m).is_ok());
}

#[test]
fn verification_remarks_a_manifest_with_a_bad_object() {
    let (v, rewrite) = verification_verdict(sample(), &vec![true, true]);
    assert_eq!(v, Integrity::Intact);
    assert!(rewrite.is_none());

    let (v, rewrite) = verification_verdict(sample(), &vec![true, false]);
    assert_eq!(v, Integrity::Suspect);
    let s = rewrite.expect("the re-marked manifest");
    assert_eq!(s.integrity, Integrity::Suspect);
    assert_eq!(s.ts, "20260619T120000Z");
    assert!(validate(&s).is_ok());
    assert_ne!(s.body_checksum, sample().body_checksum, "the integrity is part of the checksummed body");

    let mut suspect = sample();
    suspect.integrity = Integrity::Suspect;
    let suspect = Manifest::new(suspect.ts, suspect.integrity, suspect.db, suspect.projects);
    let (v, rewrite) = verification_verdict(suspect, &vec![false]);
    assert_eq!(v, Integrity::Suspect);
    assert!(rewrite.is_none(), "an already-suspect manifest is not rewritten");
}

#[test]
fn project_trees_are_discovered_by_their_content() {
    assert!(is_project_dir("haven", true, false));
    assert!(is_project_dir("haven", false, true));
    assert!(!is_project_dir("haven", false, false));
    assert!(!is_project_dir("backups", true, true));
    assert!(!is_project_dir(".restore-staging", true, true));
    assert_eq!(snapshot_integrity(true, true), Integrity::Intact);
    assert_eq!(snapshot_integrity(true, false), Integrity::Suspect);
    assert_eq!(snapshot_integrity(false, true), Integrity::Suspect);
}

#[test]
fn path_entries_are_recorded_in_path_order() {
    let file = |p: &str| PathEntry::File { path: p.into(), hash: "c".repeat(64), size: 1 };
    let sorted = sort_entries(vec![
        file("items/b.md"),
        PathEntry::Symlink { path: "items/a-link".into(), target: "b.md".into() },
        file("backlog.md"),
        file("items/a.md"),
    ]);
    let paths: Vec<&str> = sorted.iter().map(entry_path).collect();
    assert_eq!(paths, vec!["backlog.md", "items/a-link", "items/a.md", "items/b.md"]);
}

#[test]
fn the_report_sums_file_objects_per_project() {
    let mut m = sample();
    m.projects.insert(0, ProjectEntry {
        key: "web".into(),
        paths: vec![PathEntry::File { path: "backlog.md".into(), hash: "d".repeat(64), size: 3 }],
    });
    let m = Manifest::new(m.ts, Integrity::Intact, m.db, m.projects);
    let r = report_from_manifest("20260619T120000Z", &m, 900, &vec![vec![40], vec![100, 0]], 2, 4);
    assert_eq!(r.id, "20260619T120000Z");
    assert_eq!(r.db_bytes, 900);
    assert_eq!(r.integrity, Integrity::Intact);
    assert!(!r.quarantined);
    assert_eq!((r.new_objects, r.total_objects), (2, 4));
    let lines: Vec<(&str, &str, u64)> =
        r.projects.iter().map(|p| (p.key.as_str(), p.archive.as_str(), p.bytes)).collect();
    assert_eq!(
        lines,
        vec![("haven", "20260619T120000Z.json", 100), ("web", "20260619T120000Z.json", 40)]
    );
}

#[test]
fn a_restore_commits_only_after_every_check() {
    let mut stage = RestoreStage::Validate;
    let mut actions = Vec::new();
    for ok in [true, true, true, true, true] {
        let (next, action) = restore_step(stage, ok);
        actions.push(action);
        stage = next;
    }
    assert_eq!(stage, RestoreStage::Finished);
    assert_eq!(
        actions,
        vec![
            RestoreAction::Run(RestoreStage::Stage),
            RestoreAction::Run(RestoreStage::SafetySnapshot),
            RestoreAction::Run(RestoreStage::CheckUnlocked),
            RestoreAction::Run(RestoreStage::Commit),
            RestoreAction::CleanUpAndSucceed,
        ]
    );
    assert_eq!(restore_step(RestoreStage::Validate, false), (RestoreStage::Finished, RestoreAction::Fail));
    assert_eq!(
        restore_step(RestoreStage::SafetySnapshot, false),
        (RestoreStage::Finished, RestoreAction::CleanUpAndFail)
    );
    assert_eq!(
        restore_step(RestoreStage::CheckUnlocked, false),
        (RestoreStage::Finished, RestoreAction::CleanUpAndFail)
    );
    assert_eq!(restore_step(RestoreStage::Commit, false), (RestoreStage::Finished, RestoreAction::Fail));
}

const ABC_SHA: &str = "ba7816bf8f01cfea414140de5dae2223b00361a396177a9cb410ff61f20015ad";

#[test]
fn streamed_hash_matches_the_one_shot_digest() {
    let mut h = ContentHasher::new();
    h.feed(b"a");
    h.feed(b"");
    h.feed(b"bc");
    assert_eq!(h.fed_len(), 3);
    assert_eq!(h.finish(), (ABC_SHA.to_string(), 3));
    assert_eq!(ContentHasher::new().finish().1, 0);
}

#[test]
fn packed_objects_verify_and_unpack() {
    let (sha, size, packed) = pack_object(b"abc");
    assert_eq!(sha, ABC_SHA);
    assert_eq!(size, 3);
    assert_ne!(packed, b"abc".to_vec(), "the object is compressed");
    assert!(object_intact(ABC_SHA, &packed));
    assert_eq!(unpack_object(&packed), Some(b"abc".to_vec()));
    // A wrong name, a different content and a corrupt stream are not intact.
    assert!(!object_intact(&"0".repeat(64), &packed));
    assert!(!object_intact(ABC_SHA, &gzip_fast(b"abd")));
    assert!(!object_intact(ABC_SHA, b"not gzip"));
    assert_eq!(gunzip(b"not gzip"), None);
    let mut truncated = packed.clone();
    truncated.truncate(packed.len() / 2);
    assert!(!object_intact(ABC_SHA, &truncated));
}
