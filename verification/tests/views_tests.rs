use haven_core::model::{OwnerKind, Status, WaitState};
use haven_core::views::{
    backlog_markdown, count_query, find_by_norm_title, list_items_query, next_query, Frontier, ItemFilter, SqlArg,
};

const ORDER: &str = " ORDER BY n.priority IS NULL, n.priority, n.sort_key IS NULL, n.sort_key, n.created_at, n.id";

#[test]
fn default_list_is_live_only() {
    let (sql, args) = list_items_query(7, &ItemFilter::default(), None);
    assert_eq!(sql, format!(" WHERE n.project_id = ?1 AND n.status NOT IN ('archived','superseded'){ORDER}"));
    assert_eq!(args, vec![SqlArg::Int(7)]);
    let f = ItemFilter { include_dead: true, ..Default::default() };
    assert_eq!(list_items_query(7, &f, None).0, format!(" WHERE n.project_id = ?1{ORDER}"));
}

#[test]
fn filters_bind_numbered_parameters_in_order() {
    let f = ItemFilter {
        status: Some(Status::Archived),
        owner: Some(OwnerKind::Human),
        committed: Some(true),
        wait: Some(WaitState::OnHuman),
        stale_days: Some(14),
        group: Some("HV-3".into()),
        ..Default::default()
    };
    let (sql, args) = list_items_query(1, &f, Some(33));
    assert_eq!(
        sql,
        format!(
            " WHERE n.project_id = ?1 AND n.status = ?2 AND n.owner_kind = ?3 AND n.committed = ?4 AND n.wait_state = ?5 AND n.type <> 'anchor' AND n.updated_at < datetime('now', ?6) AND n.id IN (SELECT member_id FROM grouping_edges WHERE group_id = ?7){ORDER}"
        )
    );
    assert_eq!(
        args,
        vec![
            SqlArg::Int(1),
            SqlArg::Text("archived".into()),
            SqlArg::Text("human".into()),
            SqlArg::Int(1),
            SqlArg::Text("on_human".into()),
            SqlArg::Text("-14 days".into()),
            SqlArg::Int(33),
        ]
    );
}

#[test]
fn icebox_and_inbox_carry_their_own_dead_exclusion() {
    let f = ItemFilter { inbox: true, ..Default::default() };
    assert_eq!(
        list_items_query(1, &f, None).0,
        format!(" WHERE n.project_id = ?1 AND n.committed = 0 AND n.status NOT IN ('archived','superseded') AND n.done_looks_like IS NULL{ORDER}")
    );
}

#[test]
fn if_absent_matches_the_first_live_normalized_title() {
    let live = vec![(3, "Ship it".to_string()), (5, "Setup CI".to_string()), (9, "setup  ci!".to_string())];
    assert_eq!(find_by_norm_title(&live, "setup ci"), Some(5));
    assert_eq!(find_by_norm_title(&live, "other"), None);
    assert_eq!(find_by_norm_title(&live, ""), None);
}

#[test]
fn backlog_markdown_is_deterministic() {
    let text = backlog_markdown("haven", "Haven", &vec!["- a\n".to_string(), "- b\n".to_string()], &vec![]);
    assert_eq!(
        text,
        "# Haven (haven)\n\n_Generated by `haven render`. Do not hand-edit._\n\n## Committed\n\n- a\n- b\n\n## Icebox\n\n_(none)_\n\n"
    );
    assert_eq!(text, backlog_markdown("haven", "Haven", &vec!["- a\n".to_string(), "- b\n".to_string()], &vec![]));
}

#[test]
fn the_queue_and_its_counts_share_one_condition() {
    let (sql, args) = next_query(7, Some(OwnerKind::Ai), Some(5), Some(42));
    assert!(sql.starts_with(" WHERE n.project_id = ?1 AND n.committed = 1 AND n.status = 'ready'"), "{sql}");
    assert!(sql.contains(" AND n.owner_kind = ?2"), "{sql}");
    assert!(sql.contains("SELECT ?3 UNION"), "{sql}");
    assert!(sql.contains("WHERE id <> ?3)"), "{sql}");
    assert!(sql.ends_with(" LIMIT ?4"), "{sql}");
    assert_eq!(args, vec![SqlArg::Int(7), SqlArg::Text("ai".into()), SqlArg::Int(42), SqlArg::Int(5)]);

    let (count, cargs) = count_query(7, Frontier::Dispatchable, Some(OwnerKind::Ai), Some(42));
    let where_part = count.strip_prefix("SELECT count(*) FROM nodes n").unwrap();
    assert!(sql.starts_with(where_part), "the count runs over the queue's own condition");
    assert_eq!(cargs, args[..3].to_vec());

    let (plain, pargs) = next_query(7, None, None, None);
    assert!(!plain.contains("owner_kind") && !plain.contains("LIMIT") && !plain.contains("RECURSIVE"));
    assert_eq!(pargs, vec![SqlArg::Int(7)]);

    let (waiting, _) = count_query(7, Frontier::Waiting, None, Some(3));
    assert!(waiting.contains("n.wait_state IS NOT NULL AND n.id IN (WITH RECURSIVE sub(id) AS (SELECT ?2"), "{waiting}");
}
