use code_rag::augment::{detect_direction, extract_target_term, graph_augment, try_extract_target_term, GraphDirection};
use code_rag::graph::CallGraph;

fn make_graph() -> CallGraph {
    // A -> B -> C
    // A -> D
    CallGraph::from_edges(vec![
        ("A".to_string(), "B".to_string()),
        ("B".to_string(), "C".to_string()),
        ("A".to_string(), "D".to_string()),
    ])
}

#[test]
fn test_empty_graph() {
    let g = CallGraph::from_edges(Vec::new());
    assert!(g.is_empty());
    assert_eq!(g.callers_of("A"), Vec::<String>::new());
    assert_eq!(g.callees_of("A"), Vec::<String>::new());
}

#[test]
fn test_callers_of() {
    let g = make_graph();
    assert_eq!(g.callers_of("B"), vec!["A".to_string()]);
    assert_eq!(g.callers_of("D"), vec!["A".to_string()]);
    assert_eq!(g.callers_of("A"), Vec::<String>::new());
}

#[test]
fn test_callees_of() {
    let g = make_graph();
    let callees_owned = g.callees_of("A");
    let mut callees: Vec<&str> = callees_owned.iter().map(|s| s.as_str()).collect();
    callees.sort();
    assert_eq!(callees, vec!["B", "D"]);
    assert_eq!(g.callees_of("C"), Vec::<String>::new());
}

#[test]
fn test_bfs_callers_depth_1() {
    let g = make_graph();
    let result = g.bfs_callers("C", 1);
    assert_eq!(result, vec![("B".to_string(), 1)]);
}

#[test]
fn test_bfs_callers_depth_2() {
    let g = make_graph();
    let result = g.bfs_callers("C", 2);
    assert_eq!(result, vec![("B".to_string(), 1), ("A".to_string(), 2)]);
}

#[test]
fn test_bfs_callees() {
    let g = make_graph();
    let mut result = g.bfs_callees("A", 2);
    result.sort_by_key(|(_, d)| *d);
    assert!(result.len() == 3); // B, D at depth 1, C at depth 2
    assert!(result.iter().any(|(id, d)| id == "B" && *d == 1));
    assert!(result.iter().any(|(id, d)| id == "D" && *d == 1));
    assert!(result.iter().any(|(id, d)| id == "C" && *d == 2));
}

#[test]
fn test_find_path_exists() {
    let g = make_graph();
    let path = g.find_path("A", "C");
    assert_eq!(path, Some(vec!["A".to_string(), "B".to_string(), "C".to_string()]));
}

#[test]
fn test_find_path_direct() {
    let g = make_graph();
    let path = g.find_path("A", "B");
    assert_eq!(path, Some(vec!["A".to_string(), "B".to_string()]));
}

#[test]
fn test_find_path_none() {
    let g = make_graph();
    assert_eq!(g.find_path("C", "A"), None);
}

#[test]
fn test_find_path_self() {
    let g = make_graph();
    assert_eq!(g.find_path("A", "A"), Some(vec!["A".to_string()]));
}

#[test]
fn test_detect_direction_callers() {
    assert_eq!(detect_direction("What calls the retrieve function?"), GraphDirection::Callers);
    assert_eq!(detect_direction("Who calls retrieve?"), GraphDirection::Callers);
    assert_eq!(detect_direction("Functions called by main"), GraphDirection::Callers);
}

#[test]
fn test_detect_direction_callees() {
    assert_eq!(detect_direction("What does retrieve call?"), GraphDirection::Callees);
    assert_eq!(detect_direction("What does run_ingestion depend on?"), GraphDirection::Callees);
}

#[test]
fn test_detect_direction_both() {
    assert_eq!(detect_direction("Tell me about the retrieve function"), GraphDirection::Both);
}

#[test]
fn test_extract_target_term_what_calls() {
    assert_eq!(extract_target_term("What calls retrieve?"), Some("retrieve".to_string()));
    assert_eq!(
        extract_target_term("What calls the retrieve function?"),
        Some("retrieve".to_string()) // skips stopwords "the" and "function"
    );
}

#[test]
fn test_extract_target_term_what_does_call() {
    assert_eq!(extract_target_term("What does run_ingestion call?"), Some("run_ingestion".to_string()));
}

#[test]
fn test_extract_target_term_backtick() {
    assert_eq!(extract_target_term("Show callers of `retrieve`"), Some("retrieve".to_string()));
}

#[test]
fn test_extract_target_term_callers_of() {
    assert_eq!(extract_target_term("callers of retrieve"), Some("retrieve".to_string()));
}

#[test]
fn test_extract_target_term_none() {
    assert_eq!(extract_target_term("How does the system work?"), None);
}

#[test]
fn test_graph_augment_empty_graph() {
    let g = CallGraph::from_edges(Vec::new());
    let candidates = vec![("c1".to_string(), "foo".to_string())];
    assert!(graph_augment("What calls foo?", &candidates, &g).is_none());
}

#[test]
fn test_graph_augment_empty_candidates() {
    let g = make_graph();
    let candidates: Vec<(String, String)> = vec![];
    assert!(graph_augment("What calls foo?", &candidates, &g).is_none());
}

#[test]
fn test_graph_augment_callers() {
    let g = make_graph();
    let candidates = vec![
        ("B".to_string(), "process".to_string()),
        ("A".to_string(), "main".to_string()),
        ("C".to_string(), "helper".to_string()),
    ];
    let result = graph_augment("What calls process?", &candidates, &g).unwrap();
    assert_eq!(result.target_chunk_id, "B");
    assert_eq!(result.resolved_chunk_ids, vec!["A".to_string()]);
}

#[test]
fn test_graph_augment_callees() {
    let g = make_graph();
    let candidates = vec![("A".to_string(), "main".to_string())];
    let result = graph_augment("What does main call?", &candidates, &g).unwrap();
    assert_eq!(result.target_chunk_id, "A");
    let mut resolved = result.resolved_chunk_ids.clone();
    resolved.sort();
    assert_eq!(resolved, vec!["B".to_string(), "D".to_string()]);
}

#[test]
fn test_graph_augment_no_results() {
    let g = make_graph();
    let candidates = vec![("C".to_string(), "leaf".to_string())];
    // C has no callees, and "What does leaf call?" asks for callees.
    let result = graph_augment("What does leaf call?", &candidates, &g);
    assert!(result.is_none());
}

// ---- further cases ---------------------------------------------------------

#[test]
fn unique_chunk_lookup_is_case_insensitive_and_rejects_ambiguity() {
    let mut g = make_graph();
    g.register_identifiers(vec![
        ("Retrieve".to_string(), "A".to_string()),
        ("retrieve".to_string(), "A".to_string()),
        ("helper".to_string(), "B".to_string()),
        ("HELPER".to_string(), "C".to_string()),
    ]);
    assert_eq!(g.unique_chunk_for_identifier("RETRIEVE"), Some("A".to_string()));
    assert_eq!(g.unique_chunk_for_identifier("helper"), None);
    assert_eq!(g.unique_chunk_for_identifier("missing"), None);
}

#[test]
fn bfs_zero_depth_still_reports_direct_neighbours() {
    let g = make_graph();
    assert_eq!(g.bfs_callees("A", 0), vec![("B".to_string(), 1), ("D".to_string(), 1)]);
}

#[test]
fn bfs_never_reports_the_start_even_on_a_cycle() {
    let g = CallGraph::from_edges(vec![
        ("X".to_string(), "Y".to_string()),
        ("Y".to_string(), "X".to_string()),
        ("X".to_string(), "X".to_string()),
    ]);
    assert_eq!(g.bfs_callees("X", 5), vec![("Y".to_string(), 1)]);
}

#[test]
fn find_path_prefers_the_shortest_route() {
    let g = CallGraph::from_edges(vec![
        ("S".to_string(), "M1".to_string()),
        ("M1".to_string(), "M2".to_string()),
        ("M2".to_string(), "T".to_string()),
        ("S".to_string(), "T".to_string()),
    ]);
    assert_eq!(g.find_path("S", "T"), Some(vec!["S".to_string(), "T".to_string()]));
}

#[test]
fn graph_augment_both_deduplicates_and_skips_test_candidates() {
    let g = CallGraph::from_edges(vec![
        ("P".to_string(), "Q".to_string()),
        ("Q".to_string(), "P".to_string()),
    ]);
    let candidates = vec![
        ("T".to_string(), "test_q".to_string()),
        ("Q".to_string(), "q".to_string()),
    ];
    let result = graph_augment("Tell me about q", &candidates, &g).unwrap();
    assert_eq!(result.target_chunk_id, "Q");
    assert_eq!(result.direction, GraphDirection::Both);
    assert_eq!(result.resolved_chunk_ids, vec!["P".to_string()]);
}

#[test]
fn graph_augment_falls_back_to_graph_index_then_partial_match() {
    let mut g = make_graph();
    g.register_identifiers(vec![("helper".to_string(), "C".to_string())]);
    let candidates = vec![("A".to_string(), "main".to_string())];
    let result = graph_augment("What calls helper?", &candidates, &g).unwrap();
    assert_eq!(result.target_chunk_id, "C");
    assert_eq!(result.target_identifier, "helper");
    assert_eq!(result.resolved_chunk_ids, vec!["B".to_string()]);

    let candidates = vec![("B".to_string(), "process_all".to_string())];
    let result = graph_augment("What calls process?", &candidates, &g).unwrap();
    assert_eq!(result.target_chunk_id, "B");
    assert!(graph_augment("What calls nothing_here?", &candidates, &g).is_none());
}

#[test]
fn target_term_offsets_are_bytes_of_the_lowercased_query() {
    // 'Ⱥ' is two bytes, its lowercase three: the offset found in the
    // lowercased query lands one byte further into the query itself.
    assert_eq!(try_extract_target_term("Ⱥ what calls foo"), Some(Some("oo".to_string())));
    // Here that byte falls inside 'é': extraction fails.
    assert_eq!(try_extract_target_term("Ⱥ what calls é"), None);
    assert_eq!(try_extract_target_term("What calls retrieve?"), Some(Some("retrieve".to_string())));
    assert_eq!(try_extract_target_term("How does the system work?"), Some(None));
}
