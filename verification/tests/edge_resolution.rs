use code_rag::edges::{build_contains_edges, build_import_edges, resolve_edges, resolve_type_edges};
use code_rag::language::{ImportInfo, TypeRelation};
use code_rag::types::{CodeChunk, EdgeConfidence, EdgeContext, EdgeRelation, FileChunk, FolderChunk};

fn make_chunk(chunk_id: &str, identifier: &str, file_path: &str) -> CodeChunk {
    make_chunk_in("test", chunk_id, identifier, file_path)
}

fn make_chunk_in(project: &str, chunk_id: &str, identifier: &str, file_path: &str) -> CodeChunk {
    CodeChunk {
        file_path: file_path.into(),
        language: "rust".into(),
        identifier: identifier.into(),
        node_type: "function_item".into(),
        code_content: format!("fn {}() {{}}", identifier),
        start_line: 1,
        project_name: project.into(),
        docstring: None,
        signature: None,
        chunk_id: chunk_id.into(),
        content_hash: "hash".into(),
        embedding_model_version: "test".into(),
    }
}

fn make_file_chunk(chunk_id: &str, file_path: &str) -> FileChunk {
    FileChunk {
        file_path: file_path.into(),
        project_name: "test".into(),
        language: "rust".into(),
        exports: vec![],
        imports: vec![],
        purpose: None,
        summary_text: String::new(),
        chunk_id: chunk_id.into(),
        content_hash: "h".into(),
        embedding_model_version: "v".into(),
    }
}

fn make_folder_chunk(chunk_id: &str, folder_path: &str) -> FolderChunk {
    FolderChunk {
        folder_path: folder_path.into(),
        project_name: "test".into(),
        file_count: 1,
        languages: vec![],
        key_types: vec![],
        key_functions: vec![],
        subfolders: vec![],
        summary_text: String::new(),
        chunk_id: chunk_id.into(),
        content_hash: "h".into(),
        embedding_model_version: "v".into(),
    }
}

fn calls(caller: &str, callees: &[&str]) -> Vec<(String, Vec<String>)> {
    vec![(caller.to_string(), callees.iter().map(|c| c.to_string()).collect())]
}

fn no_imports() -> Vec<(String, Vec<ImportInfo>)> {
    Vec::new()
}

#[test]
fn test_same_file_resolution() {
    let chunks = vec![make_chunk("c_foo", "foo", "src/lib.rs"), make_chunk("c_bar", "bar", "src/lib.rs")];
    let calls_map = calls("c_foo", &["bar"]);
    let edges = resolve_edges(&chunks, &calls_map, &no_imports());
    assert_eq!(edges.len(), 1);
    assert_eq!(edges[0].caller_chunk_id, "c_foo");
    assert_eq!(edges[0].callee_chunk_id, "c_bar");
    assert_eq!(edges[0].resolution_tier, 1);
}

#[test]
fn test_unique_global_resolution() {
    let chunks = vec![make_chunk("c_foo", "foo", "src/a.rs"), make_chunk("c_bar", "bar", "src/b.rs")];
    let calls_map = calls("c_foo", &["bar"]);
    let edges = resolve_edges(&chunks, &calls_map, &no_imports());
    assert_eq!(edges.len(), 1);
    assert_eq!(edges[0].resolution_tier, 3);
}

#[test]
fn test_same_file_wins_over_global() {
    let chunks = vec![
        make_chunk("c_foo", "foo", "src/a.rs"),
        make_chunk("c_bar1", "bar", "src/a.rs"),
        make_chunk("c_bar2", "bar", "src/b.rs"),
    ];
    let calls_map = calls("c_foo", &["bar"]);
    let edges = resolve_edges(&chunks, &calls_map, &no_imports());
    assert_eq!(edges.len(), 1);
    assert_eq!(edges[0].callee_chunk_id, "c_bar1"); // same-file wins
    assert_eq!(edges[0].resolution_tier, 1);
}

#[test]
fn test_ambiguous_skipped() {
    let chunks = vec![
        make_chunk("c_foo", "foo", "src/a.rs"),
        make_chunk("c_bar1", "bar", "src/b.rs"),
        make_chunk("c_bar2", "bar", "src/c.rs"),
    ];
    let calls_map = calls("c_foo", &["bar"]);
    let edges = resolve_edges(&chunks, &calls_map, &no_imports());
    assert!(edges.is_empty()); // ambiguous, skip
}

#[test]
fn test_self_call_skipped() {
    let chunks = vec![make_chunk("c_foo", "foo", "src/lib.rs")];
    let calls_map = calls("c_foo", &["foo"]);
    let edges = resolve_edges(&chunks, &calls_map, &no_imports());
    assert!(edges.is_empty());
}

#[test]
fn test_unknown_callee_skipped() {
    let chunks = vec![make_chunk("c_foo", "foo", "src/lib.rs")];
    let calls_map = calls("c_foo", &["nonexistent"]);
    let edges = resolve_edges(&chunks, &calls_map, &no_imports());
    assert!(edges.is_empty());
}

#[test]
fn test_import_based_resolution() {
    let chunks = vec![
        make_chunk("c_foo", "foo", "src/a.rs"),
        make_chunk("c_bar1", "bar", "src/module/b.rs"),
        make_chunk("c_bar2", "bar", "src/other/c.rs"),
    ];
    let calls_map = calls("c_foo", &["bar"]);
    let imports_map = vec![("src/a.rs".to_string(), vec![ImportInfo::import("bar", "crate::module::b")])];
    let edges = resolve_edges(&chunks, &calls_map, &imports_map);
    assert_eq!(edges.len(), 1);
    assert_eq!(edges[0].callee_chunk_id, "c_bar1");
    assert_eq!(edges[0].resolution_tier, 2);
}

#[test]
fn test_call_never_resolves_cross_project() {
    let chunks = vec![
        make_chunk_in("alpha", "c_foo", "foo", "alpha/src/a.rs"),
        make_chunk_in("beta", "c_bar", "bar", "beta/src/b.rs"),
    ];
    let calls_map = calls("c_foo", &["bar"]);
    let edges = resolve_edges(&chunks, &calls_map, &no_imports());
    assert!(edges.is_empty());
}

#[test]
fn test_call_same_project_wins_over_foreign_duplicate() {
    let chunks = vec![
        make_chunk_in("alpha", "c_foo", "foo", "alpha/src/a.rs"),
        make_chunk_in("alpha", "c_bar_a", "bar", "alpha/src/b.rs"),
        make_chunk_in("beta", "c_bar_b", "bar", "beta/src/b.rs"),
    ];
    let calls_map = calls("c_foo", &["bar"]);
    let edges = resolve_edges(&chunks, &calls_map, &no_imports());
    assert_eq!(edges.len(), 1);
    assert_eq!(edges[0].callee_chunk_id, "c_bar_a");
    assert_eq!(edges[0].resolution_tier, 3);
}

#[test]
fn test_type_edge_never_resolves_cross_project() {
    let chunks = vec![
        make_chunk_in("alpha", "c_src", "collect", "alpha/src/lib.rs"),
        make_chunk_in("beta", "c_string", "String", "beta/internal/diag.go"),
    ];
    let rels = vec![(
        "c_src".to_string(),
        vec![TypeRelation::new("String", EdgeRelation::References, EdgeContext::ReturnType)],
    )];
    let edges = resolve_type_edges(&chunks, &rels, &no_imports());
    assert!(edges.is_empty());
}

#[test]
fn test_import_edge_never_resolves_cross_project() {
    let code = vec![
        make_chunk_in("beta", "c_bar", "Bar", "beta/src/mod_b.rs"),
        make_chunk_in("alpha", "c_foo", "foo", "alpha/src/foo.rs"),
    ];
    let mut files = vec![make_file_chunk("c_foo_file", "alpha/src/foo.rs")];
    files[0].project_name = "alpha".into();
    let imports = vec![("alpha/src/foo.rs".to_string(), vec![ImportInfo::import("Bar", "crate::mod_b")])];
    let edges = build_import_edges(&code, &files, &imports);
    assert!(!edges.iter().any(|e| e.relation == EdgeRelation::Imports));
}

#[test]
fn test_deterministic_edge_id() {
    let chunks = vec![make_chunk("c_foo", "foo", "src/lib.rs"), make_chunk("c_bar", "bar", "src/lib.rs")];
    let calls_map = calls("c_foo", &["bar"]);
    let edges1 = resolve_edges(&chunks, &calls_map, &no_imports());
    let edges2 = resolve_edges(&chunks, &calls_map, &no_imports());
    assert_eq!(edges1[0].edge_id, edges2[0].edge_id);
}

#[test]
fn test_ts_relative_import_resolution() {
    let chunks = vec![
        make_chunk("c_app", "App", "web/src/App.tsx"),
        make_chunk("c_fmt1", "formatDate", "web/src/utils/format.ts"),
        make_chunk("c_fmt2", "formatDate", "web/src/other/format.ts"),
    ];
    let calls_map = calls("c_app", &["formatDate"]);
    let imports_map =
        vec![("web/src/App.tsx".to_string(), vec![ImportInfo::import("formatDate", "./utils/format")])];
    let edges = resolve_edges(&chunks, &calls_map, &imports_map);
    assert_eq!(edges.len(), 1);
    assert_eq!(edges[0].callee_chunk_id, "c_fmt1");
    assert_eq!(edges[0].resolution_tier, 2);
}

#[test]
fn test_go_import_edge_resolution() {
    let code = vec![
        make_chunk("c_store", "NewStore", "myapp/internal/store/store.go"),
        make_chunk("c_other", "NewStore", "myapp/cmd/other.go"),
    ];
    let files = vec![make_file_chunk("c_main_file", "myapp/cmd/main.go")];
    let imports =
        vec![("myapp/cmd/main.go".to_string(), vec![ImportInfo::import("NewStore", "myapp/internal/store")])];
    let edges = build_import_edges(&code, &files, &imports);
    assert_eq!(edges.len(), 1);
    assert_eq!(edges[0].relation, EdgeRelation::Imports);
    assert_eq!(edges[0].target_chunk_id, "c_store");
    assert_eq!(edges[0].confidence, EdgeConfidence::Extracted);
}

#[test]
fn test_resolve_type_edges_implements() {
    let chunks = vec![
        make_chunk("c_fe", "FastEmbedImpl", "src/embedder.rs"),
        make_chunk("c_emb", "Embedder", "src/seams.rs"),
    ];
    let rels = vec![(
        "c_fe".to_string(),
        vec![TypeRelation::new("Embedder", EdgeRelation::Implements, EdgeContext::Unspecified)],
    )];
    let edges = resolve_type_edges(&chunks, &rels, &no_imports());
    assert_eq!(edges.len(), 1);
    assert_eq!(edges[0].source_chunk_id, "c_fe");
    assert_eq!(edges[0].target_chunk_id, "c_emb");
    assert_eq!(edges[0].relation, EdgeRelation::Implements);
    // unique-in-project resolution → Inferred confidence
    assert_eq!(edges[0].confidence, EdgeConfidence::Inferred);
}

#[test]
fn test_resolve_type_edges_drops_unknown_target() {
    let chunks = vec![make_chunk("c_fe", "FastEmbedImpl", "src/embedder.rs")];
    let rels = vec![(
        "c_fe".to_string(),
        vec![TypeRelation::new("Vec", EdgeRelation::References, EdgeContext::ReturnType)],
    )];
    let edges = resolve_type_edges(&chunks, &rels, &no_imports());
    assert!(edges.is_empty());
}

#[test]
fn test_resolve_type_edges_same_file_extracted() {
    let chunks = vec![make_chunk("c_a", "Foo", "src/lib.rs"), make_chunk("c_b", "Bar", "src/lib.rs")];
    let rels = vec![(
        "c_a".to_string(),
        vec![TypeRelation::new("Bar", EdgeRelation::Embeds, EdgeContext::Unspecified)],
    )];
    let edges = resolve_type_edges(&chunks, &rels, &no_imports());
    assert_eq!(edges.len(), 1);
    assert_eq!(edges[0].confidence, EdgeConfidence::Extracted);
}

#[test]
fn test_build_contains_edges() {
    let code = vec![make_chunk("c_fn", "foo", "p/src/lib.rs")];
    let files = vec![make_file_chunk("c_file", "p/src/lib.rs")];
    let folders = vec![make_folder_chunk("c_folder", "p/src")];
    let edges = build_contains_edges(&code, &files, &folders);
    // file ⊇ def
    assert!(edges.iter().any(|e| e.relation == EdgeRelation::Contains
        && e.source_chunk_id == "c_file"
        && e.target_chunk_id == "c_fn"));
    // folder ⊇ file
    assert!(edges.iter().any(|e| e.relation == EdgeRelation::Contains
        && e.source_chunk_id == "c_folder"
        && e.target_chunk_id == "c_file"));
}

#[test]
fn test_build_import_edges_and_reexports() {
    let code = vec![make_chunk("c_bar", "Bar", "p/src/mod_b.rs"), make_chunk("c_foo", "foo", "p/src/foo.rs")];
    let files = vec![make_file_chunk("c_foo_file", "p/src/foo.rs"), make_file_chunk("c_lib_file", "p/src/lib.rs")];
    let imports = vec![
        ("p/src/foo.rs".to_string(), vec![ImportInfo::import("Bar", "crate::mod_b")]),
        (
            "p/src/lib.rs".to_string(),
            vec![ImportInfo { imported_name: "Bar".into(), source_path: "crate::mod_b".into(), is_reexport: true }],
        ),
    ];
    let edges = build_import_edges(&code, &files, &imports);
    assert!(edges.iter().any(|e| e.relation == EdgeRelation::Imports
        && e.source_chunk_id == "c_foo_file"
        && e.target_chunk_id == "c_bar"));
    assert!(edges.iter().any(|e| e.relation == EdgeRelation::ReExports
        && e.source_chunk_id == "c_lib_file"
        && e.target_chunk_id == "c_bar"));
}

#[test]
fn repeated_type_relation_yields_one_edge() {
    let chunks = vec![make_chunk("c_a", "Foo", "src/lib.rs"), make_chunk("c_b", "Bar", "src/lib.rs")];
    let rel = TypeRelation::new("Bar", EdgeRelation::References, EdgeContext::Param);
    let rels = vec![("c_a".to_string(), vec![rel.clone(), rel])];
    let edges = resolve_type_edges(&chunks, &rels, &no_imports());
    assert_eq!(edges.len(), 1);
    assert_eq!(edges[0].context, EdgeContext::Param);
}

#[test]
fn every_call_edge_has_a_provenance() {
    let chunks = vec![
        make_chunk_in("p", "a", "caller", "src/a.rs"),
        make_chunk_in("p", "b", "helper", "src/b.rs"),
        make_chunk_in("q", "c", "helper", "src/c.rs"),
        make_chunk_in("p", "d", "recurse", "src/d.rs"),
        make_chunk_in("p", "e", "twin", "src/e.rs"),
        make_chunk_in("p", "f", "twin", "src/f.rs"),
    ];
    let mut calls_map = calls("a", &["helper", "twin", "missing"]);
    calls_map.extend(calls("d", &["recurse", "helper"]));
    let edges = resolve_edges(&chunks, &calls_map, &no_imports());
    assert_eq!(edges.len(), 2);
    for e in &edges {
        let caller = chunks.iter().find(|c| c.chunk_id == e.caller_chunk_id).unwrap();
        let callee = chunks.iter().find(|c| c.chunk_id == e.callee_chunk_id).unwrap();
        assert_ne!(e.caller_chunk_id, e.callee_chunk_id);
        assert_eq!(callee.identifier, e.callee_identifier);
        assert_eq!(callee.project_name, caller.project_name);
        assert_eq!(e.project_name, caller.project_name);
        assert!(calls_map.iter().any(|(c, names)| *c == e.caller_chunk_id && names.contains(&e.callee_identifier)));
        assert!((1..=3).contains(&e.resolution_tier));
    }
}
