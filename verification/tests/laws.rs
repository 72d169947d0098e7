use code_rag::config::RetrievalConfig;
use code_rag::folder_ingest::{build_folder_chunks, WalkEntry};
use code_rag::graph::CallGraph;
use code_rag::intent::{route, QueryIntent, RoutingTable};
use code_rag::mermaid::{render_call_path, PathStep};
use code_rag::schema::{parse_schema_version, SCHEMA_VERSION};
use code_rag::text::IdfTable;
use code_rag::types::{code_chunk_file_hash, content_hash, CodeChunk, FolderChunk};
use code_rag::viz::sanitize_project;

#[test]
fn callers_and_callees_are_dual() {
    let g = CallGraph::from_edges(vec![
        ("a".to_string(), "b".to_string()),
        ("c".to_string(), "b".to_string()),
        ("b".to_string(), "d".to_string()),
    ]);
    for x in ["a", "b", "c", "d"] {
        for y in ["a", "b", "c", "d"] {
            let y_calls_x = g.callers_of(x).iter().any(|c| c == y);
            let x_called_by_y = g.callees_of(y).iter().any(|c| c == x);
            assert_eq!(y_calls_x, x_called_by_y, "{y} -> {x}");
        }
    }
}

#[test]
fn escaped_labels_cannot_break_a_node() {
    let steps = vec![PathStep { id: "1".into(), label: "a<b>\"[c]\"".into(), file: "x]y[.rs".into() }];
    let out = render_call_path(&steps);
    let label_part = out.lines().nth(1).unwrap();
    let inner = &label_part["    n0[\"".len()..label_part.len() - "\"]".len()];
    let inner = inner.replace("<br/><small>", "").replace("</small>", "");
    for bad in ['<', '>', '"', '[', ']'] {
        assert!(!inner.contains(bad), "{inner}");
    }
    assert!(inner.contains("&lt;") && inner.contains("&#93;"));
}

#[test]
fn document_frequency_never_exceeds_corpus_size() {
    let docs = ["alpha beta", "beta gamma beta", "beta"];
    let t = IdfTable::build(&docs);
    for term in ["alpha", "beta", "gamma", "delta"] {
        assert!(t.doc_frequency(term) <= t.num_docs);
    }
    assert_eq!(t.doc_frequency("beta"), 3);
}

#[test]
fn sanitized_names_are_fixed_points() {
    for p in ["code-rag", "a/b c", "ünï", "../etc"] {
        let s = sanitize_project(p);
        assert_eq!(sanitize_project(&s), s);
        assert_eq!(s.chars().count(), p.chars().count());
        assert!(!s.contains('/'));
    }
}

#[test]
fn empty_routing_table_always_gives_default() {
    let table = RoutingTable { routes: Vec::new(), default: RetrievalConfig::default() };
    for i in [QueryIntent::Overview, QueryIntent::Implementation, QueryIntent::Relationship, QueryIntent::Comparison] {
        let c = route(i, &table);
        assert_eq!((c.code_limit, c.readme_limit, c.crate_limit, c.module_doc_limit), (5, 2, 3, 3));
    }
}

#[test]
fn written_schema_version_reads_back() {
    assert_eq!(parse_schema_version(&SCHEMA_VERSION.to_string()), Ok(SCHEMA_VERSION));
    for v in [0u32, 7, 10, 4294967295] {
        assert_eq!(parse_schema_version(&format!("{v}\n")), Ok(v));
    }
}

#[test]
fn crlf_line_endings_hash_alike() {
    let lf = "fn a() {}\nfn b() {}\n";
    let crlf = lf.replace('\n', "\r\n");
    assert_eq!(content_hash(lf), content_hash(&crlf));
    let chunks = vec![(Some("fn a()".to_string()), None)];
    assert_eq!(code_chunk_file_hash(lf, &chunks), code_chunk_file_hash(&crlf, &chunks));
}

fn chunk(file: &str, ident: &str, kind: &str, sig: &str) -> CodeChunk {
    CodeChunk {
        file_path: file.into(),
        language: "rust".into(),
        identifier: ident.into(),
        node_type: kind.into(),
        code_content: String::new(),
        start_line: 1,
        project_name: "p".into(),
        docstring: None,
        signature: Some(sig.into()),
        chunk_id: format!("{file}:{ident}"),
        content_hash: "h".into(),
        embedding_model_version: "m".into(),
    }
}

fn summary(cs: &[FolderChunk]) -> Vec<(String, usize, Vec<String>, Vec<String>, Vec<String>, String)> {
    cs.iter()
        .map(|c| {
            (
                c.folder_path.clone(),
                c.file_count,
                c.languages.clone(),
                c.key_functions.clone(),
                c.subfolders.clone(),
                c.chunk_id.clone(),
            )
        })
        .collect()
}

#[test]
fn folder_chunks_ignore_walk_order() {
    let file = |parent: &str, lang: Option<&str>, grand: Option<(&str, &str)>| {
        WalkEntry::File(parent.into(), lang.map(String::from), grand.map(|(g, n)| (g.into(), n.into())))
    };
    let walk = vec![
        WalkEntry::Dir("".into()),
        WalkEntry::Dir("src".into()),
        WalkEntry::Dir("src/util".into()),
        file("src", Some("rust"), Some(("", "src"))),
        file("src/util", Some("python"), Some(("src", "util"))),
        file("src/util", Some("rust"), Some(("src", "util"))),
    ];
    let mut reversed = walk.clone();
    reversed.reverse();
    let chunks = vec![
        chunk("src/lib.rs", "zeta", "function_item", "pub fn zeta()"),
        chunk("src/lib.rs", "alpha", "function_item", "pub fn alpha()"),
    ];
    let mut chunks_rev = chunks.clone();
    chunks_rev.reverse();
    let a = build_folder_chunks(&walk, &chunks, "repo", None, "m");
    let b = build_folder_chunks(&reversed, &chunks_rev, "repo", None, "m");
    assert_eq!(summary(&a), summary(&b));
    assert_eq!(a.len(), 3);
}

#[test]
fn file_index_lists_every_row_once_per_path() {
    let rows: Vec<(String, String, String)> = vec![
        ("a.rs", "1", "h"),
        ("b.rs", "2", "g"),
        ("a.rs", "3", "h"),
        ("c.rs", "4", "k"),
        ("b.rs", "5", "g"),
    ]
    .into_iter()
    .map(|(p, i, h)| (p.to_string(), i.to_string(), h.to_string()))
    .collect();
    let idx = code_rag::store_query::file_index_from_rows(&rows);
    let paths: Vec<&String> = idx.iter().map(|e| &e.0).collect();
    assert_eq!(paths, vec!["a.rs", "b.rs", "c.rs"]);
    for (path, id, _) in &rows {
        let entry = idx.iter().find(|e| &e.0 == path).unwrap();
        assert!(entry.2.contains(id));
    }
    assert_eq!(idx.iter().map(|e| e.2.len()).sum::<usize>(), rows.len());
}

#[test]
fn quoted_values_read_back_unchanged() {
    for v in ["plain", "o'brien", "''", "'", "", "a''b'"] {
        let f = code_rag::store_query::eq_filter("project_name", v);
        let lit = f.strip_prefix("project_name = ").unwrap();
        assert!(lit.starts_with('\'') && lit.ends_with('\'') && lit.len() >= 2);
        let inner = &lit[1..lit.len() - 1];
        assert_eq!(inner.replace("''", "'"), v);
    }
}

#[test]
fn registering_twice_changes_no_lookup() {
    let pairs = vec![
        ("Retrieve".to_string(), "c1".to_string()),
        ("retrieve".to_string(), "c1".to_string()),
        ("run".to_string(), "c2".to_string()),
        ("RUN".to_string(), "c3".to_string()),
    ];
    let mut g = CallGraph::from_edges(vec![("c1".to_string(), "c2".to_string())]);
    g.register_identifiers(pairs.clone());
    let before: Vec<Option<String>> =
        ["retrieve", "RETRIEVE", "run", "missing"].iter().map(|i| g.unique_chunk_for_identifier(i)).collect();
    assert_eq!(before, vec![Some("c1".to_string()), Some("c1".to_string()), None, None]);
    g.register_identifiers(pairs);
    let after: Vec<Option<String>> =
        ["retrieve", "RETRIEVE", "run", "missing"].iter().map(|i| g.unique_chunk_for_identifier(i)).collect();
    assert_eq!(before, after);
    assert_eq!(g.callees_of("c1"), vec!["c2".to_string()]);
}

#[test]
fn lookup_spans_every_registration_call() {
    let mut g = CallGraph::from_edges(vec![("c1".to_string(), "c2".to_string())]);
    g.register_identifiers(vec![("foo".to_string(), "c1".to_string())]);
    assert_eq!(g.unique_chunk_for_identifier("Foo"), Some("c1".to_string()));
    g.register_identifiers(vec![("FOO".to_string(), "c1".to_string()), ("bar".to_string(), "c2".to_string())]);
    assert_eq!(g.unique_chunk_for_identifier("foo"), Some("c1".to_string()));
    g.register_identifiers(vec![("Foo".to_string(), "c2".to_string())]);
    assert_eq!(g.unique_chunk_for_identifier("foo"), None);
    assert_eq!(g.unique_chunk_for_identifier("bar"), Some("c2".to_string()));
}

#[test]
fn chunk_ids_ignore_line_ending_style() {
    let lf = code_rag::types::deterministic_chunk_id("src/a.rs", "fn a() {\n    b();\n}\n");
    let crlf = code_rag::types::deterministic_chunk_id("src/a.rs", "fn a() {\r\n    b();\r\n}\r\n");
    assert_eq!(lf, crlf);
    assert_ne!(lf, code_rag::types::deterministic_chunk_id("src/b.rs", "fn a() {\n    b();\n}\n"));
}
