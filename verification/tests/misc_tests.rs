use haven_core::text::is_whitespace;
use haven_core::error::HavenError;
use haven_core::query::ORDER;
use haven_core::telemetry::{error_class, TelemetryLine};

#[test]
fn order_const_is_byte_frozen() {
    assert_eq!(
        ORDER,
        " ORDER BY n.priority IS NULL, n.priority, n.sort_key IS NULL, n.sort_key, n.created_at, n.id"
    );
}

#[test]
fn write_to_captures_into_a_sink() {
    let line = TelemetryLine::new("item.complete", None, Some("haven".into()), "ok", 0);
    let mut buf: Vec<u8> = Vec::new();
    line.write_to(&mut buf).unwrap();
    let s = String::from_utf8(buf).unwrap();
    assert!(s.ends_with('\n'));
    assert!(s.trim().starts_with("haven-telemetry "));
}

#[test]
fn render_is_one_line_with_prefix_and_parseable_json() {
    let line = TelemetryLine::new("haven_next", Some("haven".into()), Some("haven".into()), "ok", 7);
    let rendered = line.render();
    assert!(rendered.starts_with("haven-telemetry "));
    assert!(!rendered.contains('\n'), "must be a single line");
    let payload = rendered.strip_prefix("haven-telemetry ").unwrap();
    let v: serde_json::Value = serde_json::from_str(payload).expect("parseable JSON object");
    assert_eq!(v["tool"], "haven_next");
    assert_eq!(v["project_passed"], "haven");
    assert_eq!(v["project_resolved"], "haven");
    assert_eq!(v["error_class"], "ok");
    assert_eq!(v["latency_ms"], 7);
}

#[test]
fn passed_none_renders_json_null_distinct_from_resolved() {
    let line = TelemetryLine::new("haven_search", None, Some("haven".into()), "ok", 3);
    let payload = line.render();
    let payload = payload.strip_prefix("haven-telemetry ").unwrap();
    let v: serde_json::Value = serde_json::from_str(payload).unwrap();
    assert!(v["project_passed"].is_null());
    assert_eq!(v["project_resolved"], "haven");
    assert_ne!(v["project_passed"], v["project_resolved"]);
}

#[test]
fn render_is_exact_with_sorted_keys_and_escapes() {
    let line = TelemetryLine::new("t\"x", None, None, "invalid", 12);
    assert_eq!(
        line.render(),
        "haven-telemetry {\"error_class\":\"invalid\",\"latency_ms\":12,\"project_passed\":null,\"project_resolved\":null,\"tool\":\"t\\\"x\"}"
    );
}

#[test]
fn error_class_buckets_match_error_codes() {
    let nf: Result<(), HavenError> = Err(HavenError::NotFound("x".into()));
    assert_eq!(error_class(&nf), "not_found");
    let inv: Result<(), HavenError> = Err(HavenError::Invalid("x".into()));
    assert_eq!(error_class(&inv), "invalid");
    let ok: Result<(), HavenError> = Ok(());
    assert_eq!(error_class(&ok), "ok");
}

#[test]
fn every_error_has_its_code() {
    assert_eq!(HavenError::Conflict("c".into()).code(), "conflict");
    assert_eq!(HavenError::GraphRule("g".into()).code(), "graph_rule");
    assert_eq!(HavenError::Db("d".into()).code(), "db");
    assert_eq!(HavenError::Io("i".into()).code(), "io");
    let cnl = HavenError::ContentNotLocal {
        project: "p".into(),
        rel_path: "a.md".into(),
        remote_path: "/r/a.md".into(),
        content_hash: None,
    };
    assert_eq!(cnl.code(), "content_not_local");
}

#[test]
fn whitespace_is_the_unicode_white_space_list() {
    for u in 0u32..=0x3100 {
        if let Some(c) = char::from_u32(u) {
            assert_eq!(is_whitespace(c), c.is_whitespace(), "U+{u:04X}");
        }
    }
    assert!(is_whitespace('\u{3000}'));
    assert!(!is_whitespace('\u{200B}'));
    assert!(!is_whitespace('\u{10FFFF}'));
}
