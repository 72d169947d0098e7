use code_rag::augment::GraphDirection;
use code_rag::intent::QueryIntent;
use code_rag::retrieval::{
    dominant_project, graph_chunks_to_append, plan_graph_protection, semantic_slots, uses_graph_augmentation,
    GraphProtection,
};

fn ids(v: &[&str]) -> Vec<String> {
    v.iter().map(|s| s.to_string()).collect()
}

#[test]
fn test_merge_graph_chunks_no_overlap() {
    // existing c1, graph c2: the graph chunk is appended.
    let appended = graph_chunks_to_append(&ids(&["c1"]), &ids(&["c2"]));
    assert_eq!(appended, vec![0]);
    assert_eq!(1 + appended.len(), 2);
}

#[test]
fn test_merge_graph_chunks_with_overlap() {
    // existing c1, graph c1: the existing chunk (and its score) is kept.
    let appended = graph_chunks_to_append(&ids(&["c1"]), &ids(&["c1"]));
    assert!(appended.is_empty());
}

#[test]
fn merge_keeps_graph_order_and_graph_duplicates() {
    let appended = graph_chunks_to_append(&ids(&["a", "b"]), &ids(&["c", "a", "d", "c"]));
    assert_eq!(appended, vec![0, 2, 3]);
}

#[test]
fn augmentation_only_for_structural_intents() {
    assert!(uses_graph_augmentation(QueryIntent::Relationship, true));
    assert!(uses_graph_augmentation(QueryIntent::Implementation, true));
    assert!(!uses_graph_augmentation(QueryIntent::Overview, true));
    assert!(!uses_graph_augmentation(QueryIntent::Comparison, true));
    assert!(!uses_graph_augmentation(QueryIntent::Relationship, false));
}

#[test]
fn explicit_direction_routes_around_reranker() {
    let p = plan_graph_protection(true, &GraphDirection::Callers, QueryIntent::Relationship, true, 5);
    assert_eq!(
        p,
        GraphProtection {
            explicit_structural: true,
            route_around_reranker: true,
            max_graph_slots: 4,
            code_keep_override: None,
            soft_reserve_min_slots: None,
        }
    );
    let no_rerank = plan_graph_protection(true, &GraphDirection::Callees, QueryIntent::Implementation, false, 5);
    assert!(no_rerank.explicit_structural && !no_rerank.route_around_reranker);
}

#[test]
fn ambiguous_direction_gets_soft_reserve() {
    let rel = plan_graph_protection(true, &GraphDirection::Both, QueryIntent::Relationship, true, 5);
    assert!(!rel.explicit_structural && !rel.route_around_reranker);
    assert_eq!(rel.code_keep_override, Some(10));
    assert_eq!(rel.soft_reserve_min_slots, Some(2));
    let imp = plan_graph_protection(true, &GraphDirection::Both, QueryIntent::Implementation, true, 5);
    assert_eq!(imp.soft_reserve_min_slots, Some(1));
    let none = plan_graph_protection(false, &GraphDirection::Both, QueryIntent::Relationship, true, 0);
    assert_eq!(none.code_keep_override, None);
    assert_eq!(none.max_graph_slots, 0);
}

#[test]
fn semantic_slots_saturate() {
    assert_eq!(semantic_slots(5, 2), 3);
    assert_eq!(semantic_slots(2, 5), 0);
}

#[test]
fn dominant_project_votes_over_top_five() {
    assert_eq!(dominant_project(&[]), None);
    assert_eq!(dominant_project(&ids(&["a", "b", "b", "a", "c", "a", "a"])), Some("a".to_string()));
    // Only the first five vote: b wins 3 to 2 even though a dominates overall.
    assert_eq!(dominant_project(&ids(&["b", "a", "b", "a", "b", "a", "a"])), Some("b".to_string()));
    // A tie goes to the earliest hit's project.
    assert_eq!(dominant_project(&ids(&["x", "y", "y", "x"])), Some("x".to_string()));
}

#[test]
fn intent_names_round_trip() {
    for i in [QueryIntent::Overview, QueryIntent::Implementation, QueryIntent::Relationship, QueryIntent::Comparison] {
        assert_eq!(QueryIntent::parse(i.name()), Ok(i));
    }
    assert_eq!(QueryIntent::Overview.name(), "overview");
    assert_eq!(QueryIntent::Comparison.name(), "comparison");
}

#[test]
fn comparison_hits_stay_in_target_project() {
    let projects: Vec<String> = ["a", "b", "a", "a", "c", "a"].iter().map(|s| s.to_string()).collect();
    assert_eq!(code_rag::retrieval::in_project_hits(&projects, Some("a"), 3), vec![0, 2, 3]);
    assert_eq!(code_rag::retrieval::in_project_hits(&projects, Some("a"), 8), vec![0, 2, 3, 5]);
    assert_eq!(code_rag::retrieval::in_project_hits(&projects, None, 2), vec![0, 1]);
    assert_eq!(code_rag::retrieval::in_project_hits(&projects, Some("z"), 8), Vec::<usize>::new());
    assert_eq!(code_rag::retrieval::in_project_hits(&[], Some("a"), 8), Vec::<usize>::new());
}
