use code_rag::augment::GraphDirection;
use code_rag::intent::QueryIntent;
use code_rag::tool_params::{
    hint_direction, lists_callees, lists_callers, overview_query, required_param, search_intent, GraphDirectionHint,
};

#[test]
fn required_params_are_trimmed_and_blank_is_refused() {
    assert_eq!(required_param("  parse_query \n"), Some("parse_query".to_string()));
    assert_eq!(required_param("   "), None);
    assert_eq!(required_param(""), None);
}

#[test]
fn overview_query_defaults_when_no_topic() {
    assert_eq!(overview_query(None), "project overview architecture");
    assert_eq!(overview_query(Some("  ")), "project overview architecture");
    assert_eq!(overview_query(Some(" ingestion ")), "ingestion");
}

#[test]
fn forced_intent_beats_comparison_cue() {
    let q = "what is the difference between bm25 and vector search";
    assert_eq!(search_intent(Some(QueryIntent::Overview), q), Some(QueryIntent::Overview));
    assert_eq!(search_intent(None, q), Some(QueryIntent::Comparison));
    assert_eq!(search_intent(None, "how does retrieval work"), None);
}

#[test]
fn graph_hints_pick_listed_sides() {
    assert_eq!(hint_direction(None), GraphDirection::Both);
    assert_eq!(hint_direction(Some(GraphDirectionHint::Both)), GraphDirection::Both);
    let callers = hint_direction(Some(GraphDirectionHint::Callers));
    assert_eq!(callers, GraphDirection::Callers);
    assert!(lists_callers(&callers) && !lists_callees(&callers));
    let callees = hint_direction(Some(GraphDirectionHint::Callees));
    assert!(!lists_callers(&callees) && lists_callees(&callees));
    assert!(lists_callers(&GraphDirection::Both) && lists_callees(&GraphDirection::Both));
}
