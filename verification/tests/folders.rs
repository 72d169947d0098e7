use code_rag::folder::MAX_KEYS;
use code_rag::folder_ingest::{build_folder_chunks, WalkEntry};
use code_rag::sorted::{insert_sorted, str_lt};
use code_rag::types::{CodeChunk, FolderChunk};

fn mk_code_chunk(file_path: &str, language: &str, identifier: &str, node_type: &str, signature: Option<&str>) -> CodeChunk {
    CodeChunk {
        file_path: file_path.to_string(),
        language: language.to_string(),
        identifier: identifier.to_string(),
        node_type: node_type.to_string(),
        code_content: "...".to_string(),
        start_line: 1,
        project_name: "test".to_string(),
        docstring: None,
        signature: signature.map(|s| s.to_string()),
        chunk_id: format!("{file_path}:{identifier}"),
        content_hash: "h".to_string(),
        embedding_model_version: "test".to_string(),
    }
}

fn dir(p: &str) -> WalkEntry {
    WalkEntry::Dir(p.to_string())
}

/// A file in `parent`, as a walk of the repository root reports it.
fn file(parent: &str, lang: Option<&str>) -> WalkEntry {
    let grand = if parent.is_empty() {
        None
    } else {
        match parent.rfind('/') {
            Some(i) => Some((parent[..i].to_string(), parent[i + 1..].to_string())),
            None => Some((String::new(), parent.to_string())),
        }
    };
    WalkEntry::File(parent.to_string(), lang.map(|l| l.to_string()), grand)
}

fn build(entries: &[WalkEntry], chunks: &[CodeChunk]) -> Vec<FolderChunk> {
    build_folder_chunks(entries, chunks, "repo", Some("t"), "test-model")
}

fn find<'a>(chunks: &'a [FolderChunk], path: &str) -> Option<&'a FolderChunk> {
    chunks.iter().find(|c| c.folder_path == path)
}

#[test]
fn build_produces_module_synonym_in_summary() {
    let entries = vec![
        dir(""),
        dir("crates"),
        dir("crates/engine"),
        dir("crates/engine/src"),
        file("crates/engine/src", Some("rust")),
    ];
    let code_chunks =
        vec![mk_code_chunk("crates/engine/src/lib.rs", "rust", "retrieve", "function_item", Some("pub fn retrieve() -> ()"))];
    let chunks = build(&entries, &code_chunks);
    let src_folder = find(&chunks, "crates/engine/src").expect("src folder summarized");
    assert!(src_folder.summary_text.contains("(module: src)"), "summary: {}", src_folder.summary_text);
    assert!(src_folder.key_functions.contains(&"retrieve".to_string()), "keys: {:?}", src_folder.key_functions);
}

#[test]
fn build_skips_empty_folders() {
    let entries = vec![dir(""), dir("empty_dir")];
    let chunks = build(&entries, &[]);
    assert!(!chunks.iter().any(|c| c.folder_path == "empty_dir"), "chunks: {chunks:?}");
    // The root still lists the empty folder as a subfolder.
    let root = find(&chunks, "").expect("root summarized");
    assert_eq!(root.subfolders, vec!["empty_dir".to_string()]);
}

#[test]
fn build_sorts_key_functions_alphabetically() {
    let entries = vec![dir(""), dir("src"), file("src", Some("rust"))];
    let code_chunks = vec![
        mk_code_chunk("src/lib.rs", "rust", "zeta", "function_item", Some("pub fn zeta()")),
        mk_code_chunk("src/lib.rs", "rust", "alpha", "function_item", Some("pub fn alpha()")),
        mk_code_chunk("src/lib.rs", "rust", "alpha", "function_item", Some("pub fn alpha()")),
    ];
    let chunks = build(&entries, &code_chunks);
    let src = find(&chunks, "src").unwrap();
    assert_eq!(src.key_functions, vec!["alpha".to_string(), "zeta".to_string()]);
}

#[test]
fn build_caps_key_types_at_max() {
    let entries = vec![dir(""), dir("src"), file("src", Some("rust"))];
    let code_chunks: Vec<CodeChunk> = (0..30)
        .map(|i| {
            mk_code_chunk(
                "src/lib.rs",
                "rust",
                &format!("Struct{i:02}"),
                "struct_item",
                Some(&format!("pub struct Struct{i:02}")),
            )
        })
        .collect();
    let chunks = build(&entries, &code_chunks);
    let src = find(&chunks, "src").unwrap();
    assert_eq!(src.key_types.len(), MAX_KEYS);
    // The smallest names are the ones kept.
    assert_eq!(src.key_types[0], "Struct00");
    assert_eq!(src.key_types[MAX_KEYS - 1], "Struct11");
}

#[test]
fn build_skips_private_rust_items() {
    let entries = vec![dir(""), dir("src"), file("src", Some("rust"))];
    let code_chunks = vec![mk_code_chunk("src/lib.rs", "rust", "helper", "function_item", Some("fn helper()"))];
    let chunks = build(&entries, &code_chunks);
    let src = find(&chunks, "src").unwrap();
    assert!(src.key_functions.is_empty());
}

#[test]
fn build_deterministic_across_calls() {
    let entries = vec![dir(""), dir("src"), dir("src/inner"), file("src", Some("rust")), file("src/inner", Some("rust"))];
    let out1 = build(&entries, &[]);
    let out2 = build(&entries, &[]);
    let ids1: Vec<&str> = out1.iter().map(|c| c.chunk_id.as_str()).collect();
    let ids2: Vec<&str> = out2.iter().map(|c| c.chunk_id.as_str()).collect();
    assert_eq!(ids1, ids2);
}

#[test]
fn build_registers_subfolders_from_grandparent() {
    let entries = vec![
        dir(""),
        dir("crates"),
        dir("crates/engine"),
        dir("crates/engine/src"),
        file("crates/engine/src", Some("rust")),
    ];
    let chunks = build(&entries, &[]);
    let engine = find(&chunks, "crates/engine").expect("crates/engine summarized");
    assert!(engine.subfolders.contains(&"src".to_string()), "subfolders: {:?}", engine.subfolders);
}

#[test]
fn build_output_sorted_and_counts_source_files_only() {
    let entries = vec![
        dir(""),
        dir("b"),
        dir("a"),
        file("b", Some("python")),
        file("b", Some("rust")),
        file("b", None),
        file("a", Some("rust")),
        file("", None),
    ];
    let chunks = build(&entries, &[]);
    let paths: Vec<&str> = chunks.iter().map(|c| c.folder_path.as_str()).collect();
    assert_eq!(paths, vec!["", "a", "b"]);
    let b = find(&chunks, "b").unwrap();
    assert_eq!(b.file_count, 2);
    assert_eq!(b.languages, vec!["python".to_string(), "rust".to_string()]);
    let root = find(&chunks, "").unwrap();
    assert_eq!(root.file_count, 0);
    assert_eq!(root.subfolders, vec!["a".to_string(), "b".to_string()]);
    assert_eq!(root.project_name, "t");
    assert_eq!(root.embedding_model_version, "test-model");
}

#[test]
fn build_project_name_without_override() {
    let entries = vec![dir(""), dir("proj"), dir("proj/src"), file("proj/src", Some("rust"))];
    let chunks = build_folder_chunks(&entries, &[], "portfolio", None, "m");
    assert_eq!(find(&chunks, "").unwrap().project_name, "portfolio");
    assert_eq!(find(&chunks, "proj/src").unwrap().project_name, "proj");
}

#[test]
fn build_keys_only_from_files_directly_inside() {
    let entries = vec![dir(""), dir("src"), dir("src/inner"), file("src/inner", Some("rust"))];
    let code_chunks = vec![mk_code_chunk("src/inner/util.rs", "rust", "Widget", "struct_item", Some("pub struct Widget"))];
    let chunks = build(&entries, &code_chunks);
    assert!(find(&chunks, "src").unwrap().key_types.is_empty());
    assert_eq!(find(&chunks, "src/inner").unwrap().key_types, vec!["Widget".to_string()]);
}

#[test]
fn sorted_insert_keeps_order_and_drops_duplicates() {
    let mut v: Vec<String> = Vec::new();
    for s in ["pear", "apple", "pear", "fig", "apple"] {
        insert_sorted(&mut v, s.to_string());
    }
    assert_eq!(v, vec!["apple".to_string(), "fig".to_string(), "pear".to_string()]);
    let s = |x: &str| x.to_string();
    assert!(str_lt(&s("ab"), &s("b")));
    assert!(str_lt(&s("a"), &s("ab")));
    assert!(!str_lt(&s("b"), &s("b")));
    assert!(!str_lt(&s("b"), &s("ab")));
}
