use haven_core::edge::EdgeKind;
use haven_core::error::HavenError;
use haven_core::evolve::{check_merge, check_split, check_supersede, merge_lineage, plan_forward, split_lineage};
use haven_core::model::NodeType;

#[test]
fn merge_plan_forwards_parents_and_dependents_onto_the_survivor() {
    // parent(1) decomposes into s1(2) and s2(3); dep(4) depends on s1; survivor 10.
    let decomp = vec![(1, 2), (1, 3)];
    let deps = vec![(4, 2)];
    let plan = plan_forward(&[2, 3], 10, NodeType::Task, &decomp, &deps, &[]).unwrap();
    assert_eq!(
        plan,
        vec![
            (EdgeKind::Decomposition, 1, 10),
            (EdgeKind::Dependency, 4, 10),
            (EdgeKind::Decomposition, 1, 10),
        ]
    );
}

#[test]
fn edges_between_sources_fold_away() {
    // s1(2) depends on s2(3): both fold into the survivor, so nothing is written.
    let plan = plan_forward(&[2, 3], 10, NodeType::Task, &[], &[(2, 3)], &[]).unwrap();
    assert!(plan.is_empty());
    // An edge from a source to the survivor folds into a self-loop too.
    let plan = plan_forward(&[2], 10, NodeType::Task, &[(10, 2)], &[], &[]).unwrap();
    assert!(plan.is_empty());
}

#[test]
fn prerequisites_and_children_follow_the_survivor() {
    // source 2 depends on 5 and has child 6.
    let plan = plan_forward(&[2], 10, NodeType::Task, &[(2, 6)], &[(2, 5)], &[]).unwrap();
    assert_eq!(plan, vec![(EdgeKind::Decomposition, 10, 6), (EdgeKind::Dependency, 10, 5)]);
}

#[test]
fn container_survivor_inherits_members_and_groups() {
    // phase 1 groups member 3; release 7 groups phase 1; supersede 1 with phase 2.
    let groups = vec![(1, 3), (7, 1)];
    let plan = plan_forward(&[1], 2, NodeType::Phase, &[], &[], &groups).unwrap();
    assert_eq!(plan, vec![(EdgeKind::Grouping, 7, 2), (EdgeKind::Grouping, 2, 3)]);
}

#[test]
fn grouped_members_cannot_be_orphaned_into_a_task() {
    let groups = vec![(1, 3)];
    let err = plan_forward(&[1, 4], 10, NodeType::Task, &[], &[], &groups).unwrap_err();
    match err {
        HavenError::GraphRule(m) => assert!(m.contains("orphaned"), "{m}"),
        other => panic!("expected a graph rule error, got {other:?}"),
    }
    // A member that is itself a source folds into the survivor: no orphan.
    let plan = plan_forward(&[1, 3], 10, NodeType::Task, &[], &[], &groups).unwrap();
    assert!(plan.is_empty());
}

#[test]
fn evolve_requests_are_checked_first() {
    assert!(check_split(&[]).is_err());
    assert!(check_split(&["a".to_string()]).is_ok());
    assert!(matches!(check_merge(1, "t"), Err(HavenError::Invalid(m)) if m == "merge requires at least two source items"));
    assert!(matches!(check_merge(2, "  "), Err(HavenError::Invalid(m)) if m == "merge requires a --title"));
    assert!(check_merge(2, "Unified").is_ok());
    assert!(matches!(check_supersede(3, 3), Err(HavenError::Invalid(m)) if m == "cannot supersede a node with itself"));
    assert!(check_supersede(3, 4).is_ok());
}

#[test]
fn lineage_edges_point_forward() {
    assert_eq!(split_lineage(1, &[5, 6]), vec![(1, 5), (1, 6)]);
    assert_eq!(merge_lineage(&[2, 3], 9), vec![(2, 9), (3, 9)]);
    assert!(split_lineage(1, &[]).is_empty());
}
