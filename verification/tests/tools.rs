use code_rag::auth::AuthMethod;
use code_rag::graph::CallGraph;
use code_rag::setup::{forward_slashes, gitignore_with_index, mcp_server_args, register_server, reindex_args};
use code_rag::source_window::{source_window, strip_first_component};
use code_rag::types::CallEdge;
use code_rag::viz::{community_color, node_query};

#[test]
fn api_key_and_token_validity() {
    assert!(AuthMethod::ApiKey("k".into()).is_valid_at(0));
    assert!(!AuthMethod::ApiKey(String::new()).is_valid_at(0));
    let t = AuthMethod::from_token("tok".into(), 3600, 1_000);
    assert!(t.is_valid_at(1_000));
    assert!(t.is_valid_at(4_599));
    assert!(!t.is_valid_at(4_600));
    let forever = AuthMethod::OAuth2 { access_token: "tok".into(), expires_at: None };
    assert!(forever.is_valid_at(u64::MAX));
    let empty = AuthMethod::OAuth2 { access_token: String::new(), expires_at: None };
    assert!(!empty.is_valid_at(0));
}

#[test]
fn community_colors_never_wrap() {
    assert_eq!(community_color(0), "var(--viz-c1)");
    assert_eq!(community_color(7), "var(--viz-c8)");
    assert_eq!(community_color(8), "var(--viz-other)");
    assert_eq!(community_color(123), "var(--viz-other)");
}

#[test]
fn node_queries_name_project_and_file() {
    assert_eq!(
        node_query("elements.py", "n1", "file", "7_wonders/elements.py"),
        "What is the role of `elements.py` in the architecture of the `7_wonders` project?"
    );
    assert_eq!(node_query("", "n1", "file", ""), "What is the role of `n1` in the architecture of this project?");
    assert_eq!(
        node_query("Player", "n2", "type", "catan/src/player.rs"),
        "What does `Player` in `player.rs` (`catan` project) do and what depends on it?"
    );
    assert_eq!(node_query("Player", "n2", "type", "player.rs"), "What does `Player` in `player.rs` (`player.rs` project) do and what depends on it?");
    assert_eq!(node_query("f", "n3", "function", "proj/"), "What does `f` do and what depends on it?");
}

#[test]
fn gitignore_gains_index_entry_once() {
    let added = gitignore_with_index("target/").unwrap();
    assert_eq!(added, "target/\n\n# code-rag MCP index \u{2014} large binary, never commit\n.code-rag-mcp/\n");
    assert_eq!(gitignore_with_index(&added), None);
    assert_eq!(gitignore_with_index("  .code-rag-mcp  \n"), None);
    assert_eq!(
        gitignore_with_index("").unwrap(),
        "\n# code-rag MCP index \u{2014} large binary, never commit\n.code-rag-mcp/\n"
    );
}

#[test]
fn server_and_reindex_arguments() {
    assert_eq!(mcp_server_args(false), vec!["--db-path", "./.code-rag-mcp/index.lance", "--repo-path", "."]);
    assert_eq!(mcp_server_args(true).last().unwrap(), "--workspace");
    assert_eq!(reindex_args("/r", "/d", false, true), vec!["ingest", "/r", "--db-path", "/d", "--single-repo", "--full"]);
    assert_eq!(reindex_args("/r", "/d", true, false), vec!["ingest", "/r", "--db-path", "/d"]);
    assert_eq!(forward_slashes("C:\\Users\\me\\bin.exe"), "C:/Users/me/bin.exe");
}

#[test]
fn source_window_centres_and_clips() {
    let content: String = (1..=30).map(|i| format!("line {i}\n")).collect();
    let w = source_window(&content, 10, Some(4)).unwrap();
    assert_eq!((w.start_line, w.end_line), (8, 12));
    assert_eq!(w.excerpt.lines().next().unwrap(), "    8 | line 8");
    let top = source_window(&content, 1, None).unwrap();
    assert_eq!((top.start_line, top.end_line), (1, 11));
    let past_end = source_window(&content, 100, Some(2)).unwrap();
    assert_eq!((past_end.start_line, past_end.end_line), (29, 30));
    let capped = source_window(&content, 15, Some(10_000)).unwrap();
    assert_eq!((capped.start_line, capped.end_line), (1, 30));
    assert!(source_window("", 1, None).is_none());
}

#[test]
fn project_prefix_is_stripped() {
    assert_eq!(strip_first_component("proj/src/lib.rs"), "src/lib.rs");
    assert_eq!(strip_first_component("lib.rs"), "lib.rs");
}

#[test]
fn stored_edges_give_a_queryable_graph() {
    let edge = |a: &str, ai: &str, b: &str, bi: &str| CallEdge {
        edge_id: format!("{a}->{b}"),
        caller_chunk_id: a.into(),
        callee_chunk_id: b.into(),
        caller_identifier: ai.into(),
        callee_identifier: bi.into(),
        caller_file: "f.rs".into(),
        callee_file: "f.rs".into(),
        project_name: "p".into(),
        resolution_tier: 1,
    };
    let g = CallGraph::from_call_edges(&[edge("c1", "main", "c2", "Parse"), edge("c2", "Parse", "c3", "lex")]);
    assert_eq!(g.callees_of("c1"), vec!["c2"]);
    assert_eq!(g.unique_chunk_for_identifier("parse"), Some("c2".to_string()));
    assert_eq!(g.unique_chunk_for_identifier("LEX"), Some("c3".to_string()));
}

#[test]
fn registering_a_server_keeps_the_others() {
    let mut table: Vec<(String, u32)> = vec![("other".to_string(), 1), ("code-rag".to_string(), 2), ("z".to_string(), 3)];
    assert!(register_server(&mut table, "code-rag", 9));
    assert_eq!(table, vec![("other".to_string(), 1), ("code-rag".to_string(), 9), ("z".to_string(), 3)]);
    let mut fresh: Vec<(String, u32)> = vec![("other".to_string(), 1)];
    assert!(!register_server(&mut fresh, "code-rag", 4));
    assert_eq!(fresh, vec![("other".to_string(), 1), ("code-rag".to_string(), 4)]);
}
