use haven_core::lookup::{
    eq_ignore_ascii_case, foreign_prefix, nearest_live_refs, not_found_hint, stale_ref_for, wrong_prefix_note, StaleRef,
};
use haven_core::model::Status;

fn refs(xs: &[&str]) -> Vec<String> {
    xs.iter().map(|s| s.to_string()).collect()
}

#[test]
fn nearest_refs_by_counter_distance() {
    let live = refs(&["HV-1", "HV-7", "HV-10", "HV-12", "junk", "HV-9"]);
    assert_eq!(nearest_live_refs(&live, "HV-11", 3), refs(&["HV-10", "HV-12", "HV-9"]));
    assert_eq!(nearest_live_refs(&live, "HV-8", 2), refs(&["HV-7", "HV-9"]));
    // No counter to anchor on: the lowest counters.
    assert_eq!(nearest_live_refs(&live, "something", 3), refs(&["HV-1", "HV-7", "HV-9"]));
    assert_eq!(nearest_live_refs(&live, "HV-11", 0), Vec::<String>::new());
    assert_eq!(nearest_live_refs(&refs(&["HV-2"]), "HV-5", 3), refs(&["HV-2"]));
}

#[test]
fn foreign_prefixes_are_compared_up_to_ascii_case() {
    assert!(eq_ignore_ascii_case("hv", "HV"));
    assert!(!eq_ignore_ascii_case("hv", "HX"));
    assert!(!eq_ignore_ascii_case("hv", "hvv"));
    assert_eq!(foreign_prefix("hv-3", "HV"), None);
    assert_eq!(foreign_prefix("OPS-3", "HV"), Some("OPS".to_string()));
    assert_eq!(foreign_prefix("no-ref-here", "HV"), None);
}

#[test]
fn not_found_hint_text() {
    let wrong = wrong_prefix_note("OPS", "ops", "haven");
    assert_eq!(wrong, " — prefix OPS is project \"ops\", not \"haven\"");
    assert_eq!(
        not_found_hint("OPS-3", "haven", "HV", &refs(&["HV-2", "HV-4"]), &wrong),
        " — no OPS-3 in haven; closest live: HV-2, HV-4 — prefix OPS is project \"ops\", not \"haven\"; refs here use prefix HV"
    );
    assert_eq!(not_found_hint("HV-3", "haven", "HV", &vec![], ""), " — no HV-3 in haven; refs here use prefix HV");
}

#[test]
fn dead_refs_point_at_their_live_successors() {
    assert_eq!(stale_ref_for(Status::Ready, "HV-3", Some("HV-3".into()), refs(&["HV-9"])), None);
    assert_eq!(
        stale_ref_for(Status::Superseded, "HV-3", Some("HV-3".into()), refs(&["HV-9", "HV-10"])),
        Some(StaleRef { requested: "HV-3".into(), resolved_to: refs(&["HV-9", "HV-10"]) })
    );
    // A plain archive has no successor; an unknown canonical ref echoes the selector.
    assert_eq!(
        stale_ref_for(Status::Archived, "0b7e-uuid", None, vec![]),
        Some(StaleRef { requested: "0b7e-uuid".into(), resolved_to: vec![] })
    );
}
