use code_rag::file::{canonical_tuple as file_tuple, clean_purpose, filename_purpose, module_name_of,
    render_summary as file_summary, FileMeta, MAX_FILE_LIST, MAX_PURPOSE_CHARS};
use code_rag::folder::{basename_of, canonical_tuple as folder_tuple, csv_or, is_public, or_na,
    render_summary as folder_summary, FolderMeta, MAX_KEYS};

// ---- folder -----------------------------------------------------------------

fn meta<'a>(folder_path: &'a str, key_types: &'a [String]) -> FolderMeta<'a> {
    FolderMeta { folder_path, file_count: 0, languages: &[], key_types, key_functions: &[], subfolders: &[] }
}

#[test]
fn render_summary_has_module_synonym() {
    let s = folder_summary(&meta("code-rag/crates/code-rag-engine/src", &[]));
    assert!(s.starts_with("Folder: code-rag/crates/code-rag-engine/src (module: src)"), "got: {s}");
}

#[test]
fn render_summary_five_lines() {
    let s = folder_summary(&meta("a/b", &[]));
    assert_eq!(s.lines().count(), 5);
}

#[test]
fn folder_render_summary_empty_fields_use_fallbacks() {
    let s = folder_summary(&meta("a/b", &[]));
    assert!(s.contains("Contains: 0 files (n/a)"));
    assert!(s.contains("Key types: none"));
    assert!(s.contains("Key functions: none"));
    assert!(s.contains("Subfolders: none"));
}

#[test]
fn folder_render_summary_csv_joining() {
    let langs = vec!["rust".to_string(), "python".to_string()];
    let m = FolderMeta {
        folder_path: "a",
        file_count: 3,
        languages: &langs,
        key_types: &[],
        key_functions: &[],
        subfolders: &[],
    };
    let s = folder_summary(&m);
    assert!(s.contains("Contains: 3 files (rust, python)"));
}

#[test]
fn render_summary_deterministic() {
    let types = vec!["Beta".to_string(), "Alpha".to_string()];
    let m = FolderMeta {
        folder_path: "x",
        file_count: 1,
        languages: &[],
        key_types: &types,
        key_functions: &[],
        subfolders: &[],
    };
    assert_eq!(folder_summary(&m), folder_summary(&m));
}

#[test]
fn render_summary_bounded_for_max_keys() {
    let names: Vec<String> = (0..MAX_KEYS).map(|i| format!("Name{i:02}")).collect();
    let langs = vec!["rust".to_string()];
    let m = FolderMeta {
        folder_path: "crates/foo/src",
        file_count: 12,
        languages: &langs,
        key_types: &names,
        key_functions: &names,
        subfolders: &[],
    };
    let s = folder_summary(&m);
    assert!(s.len() < 500, "summary too long: {} bytes", s.len());
}

#[test]
fn basename_handles_trailing_slash() {
    assert_eq!(basename_of("code-rag/"), "code-rag");
    assert_eq!(basename_of("code-rag"), "code-rag");
    assert_eq!(basename_of(""), "");
}

#[test]
fn folder_canonical_tuple_changes_with_fields() {
    let empty: Vec<String> = Vec::new();
    let a = FolderMeta {
        folder_path: "x",
        file_count: 1,
        languages: &empty,
        key_types: &empty,
        key_functions: &empty,
        subfolders: &empty,
    };
    let b = FolderMeta {
        folder_path: "x",
        file_count: 2,
        languages: &empty,
        key_types: &empty,
        key_functions: &empty,
        subfolders: &empty,
    };
    assert_ne!(folder_tuple(&a), folder_tuple(&b));
}

#[test]
fn visibility_rust() {
    assert!(is_public("rust", Some("pub fn foo()"), "foo"));
    assert!(!is_public("rust", Some("pub(crate) fn foo()"), "foo"));
    assert!(!is_public("rust", Some("fn foo()"), "foo"));
    assert!(!is_public("rust", None, "foo"));
}

#[test]
fn visibility_python() {
    assert!(is_public("python", None, "process"));
    assert!(!is_public("python", None, "_helper"));
    // Dunder methods still count as public.
    assert!(is_public("python", None, "__init__"));
}

#[test]
fn visibility_typescript() {
    assert!(is_public("typescript", Some("export function foo()"), "foo"));
    assert!(is_public("typescript", Some("export const Button = () =>"), "Button"));
    assert!(!is_public("typescript", Some("function foo()"), "foo"));
    assert!(!is_public("typescript", None, "foo"));
    // `exported` looking token must not match `export`.
    assert!(!is_public("typescript", Some("const exported_value = 1"), "exported_value"));
}

#[test]
fn visibility_unknown_language_permissive() {
    assert!(is_public("ruby", None, "anything"));
}

#[test]
fn folder_summary_exact_text() {
    let langs = vec!["rust".to_string()];
    let types = vec!["Graph".to_string()];
    let subs = vec!["inner".to_string()];
    let m = FolderMeta {
        folder_path: "p\\src",
        file_count: 2,
        languages: &langs,
        key_types: &types,
        key_functions: &[],
        subfolders: &subs,
    };
    assert_eq!(
        folder_summary(&m),
        "Folder: p\\src (module: src)\nContains: 2 files (rust)\nKey types: Graph\nKey functions: none\nSubfolders: inner"
    );
    assert_eq!(folder_tuple(&m), "p\\src|2|rust|Graph||inner");
}

#[test]
fn csv_and_na_helpers() {
    assert_eq!(csv_or(&[], "none"), "none");
    assert_eq!(csv_or(&["a".to_string(), "b".to_string()], "none"), "a, b");
    assert_eq!(or_na(""), "n/a");
    assert_eq!(or_na("calls"), "calls");
}

// ---- file -------------------------------------------------------------------

fn fmeta<'a>(file_path: &'a str, language: &'a str) -> FileMeta<'a> {
    FileMeta { file_path, language, exports: &[], imports: &[], purpose: None }
}

#[test]
fn render_summary_has_module_synonym_and_language() {
    let s = file_summary(&fmeta("code-rag/crates/code-rag-engine/src/retriever.rs", "rust"));
    assert!(
        s.starts_with("File: code-rag/crates/code-rag-engine/src/retriever.rs (module: retriever, rust)"),
        "got: {s}"
    );
}

#[test]
fn render_summary_four_lines() {
    let s = file_summary(&fmeta("a/b.rs", "rust"));
    assert_eq!(s.lines().count(), 4);
}

#[test]
fn file_render_summary_empty_fields_use_fallbacks() {
    let s = file_summary(&fmeta("a/b.rs", "rust"));
    assert!(s.contains("Exports: none"));
    assert!(s.contains("Imports: none"));
    assert!(s.contains("Purpose: (none extracted)"));
}

#[test]
fn file_render_summary_csv_joining() {
    let exports = vec!["Retriever".to_string(), "retrieve".to_string()];
    let imports = vec!["CodeChunk from code_rag_types".to_string()];
    let m = FileMeta {
        file_path: "a/retriever.rs",
        language: "rust",
        exports: &exports,
        imports: &imports,
        purpose: Some("Orchestrates per-intent retrieval."),
    };
    let s = file_summary(&m);
    assert!(s.contains("Exports: Retriever, retrieve"));
    assert!(s.contains("Imports: CodeChunk from code_rag_types"));
    assert!(s.contains("Purpose: Orchestrates per-intent retrieval."));
}

#[test]
fn module_name_strips_last_extension_only() {
    assert_eq!(module_name_of("retriever.rs"), "retriever");
    assert_eq!(module_name_of("app.module.ts"), "app.module");
    assert_eq!(module_name_of("Dockerfile"), "Dockerfile");
    assert_eq!(module_name_of("src/.hidden"), ".hidden");
    assert_eq!(module_name_of(""), "");
}

#[test]
fn render_summary_deterministic_across_calls() {
    let exports = vec!["B".to_string(), "A".to_string()];
    let m = FileMeta { file_path: "x.rs", language: "rust", exports: &exports, imports: &[], purpose: None };
    assert_eq!(file_summary(&m), file_summary(&m));
}

#[test]
fn render_summary_bounded_for_max_list() {
    let exports: Vec<String> = (0..MAX_FILE_LIST).map(|i| format!("Name{i:02}")).collect();
    let imports: Vec<String> = (0..MAX_FILE_LIST).map(|i| format!("Imp{i:02} from mod::path")).collect();
    let m = FileMeta {
        file_path: "crates/foo/src/lib.rs",
        language: "rust",
        exports: &exports,
        imports: &imports,
        purpose: Some("Central facade."),
    };
    let s = file_summary(&m);
    assert!(s.len() < 800, "summary too long: {} bytes", s.len());
}

#[test]
fn clean_purpose_trims_and_caps() {
    assert_eq!(
        clean_purpose("  Orchestrates retrieval.\nSecond line. "),
        Some("Orchestrates retrieval.".to_string())
    );
    assert_eq!(clean_purpose(""), None);
    assert_eq!(clean_purpose("   \n\n"), None);
    let long = "a".repeat(200);
    let cleaned = clean_purpose(&long).unwrap();
    assert_eq!(cleaned.chars().count(), MAX_PURPOSE_CHARS);
}

#[test]
fn clean_purpose_collapses_inner_whitespace() {
    assert_eq!(clean_purpose("a \t  b\r\nc"), Some("a b".to_string()));
}

#[test]
fn filename_purpose_uses_module_name() {
    assert_eq!(filename_purpose("src/retriever.rs"), "This file defines retriever.");
}

#[test]
fn file_canonical_tuple_changes_with_fields() {
    let empty: Vec<String> = Vec::new();
    let a = FileMeta { file_path: "x.rs", language: "rust", exports: &empty, imports: &empty, purpose: None };
    let b = FileMeta {
        file_path: "x.rs",
        language: "rust",
        exports: &empty,
        imports: &empty,
        purpose: Some("changed"),
    };
    assert_ne!(file_tuple(&a), file_tuple(&b));
}

#[test]
fn file_summary_exact_text() {
    let exports = vec!["A".to_string(), "b".to_string()];
    let m = FileMeta { file_path: "src/lib.rs", language: "rust", exports: &exports, imports: &[], purpose: None };
    assert_eq!(
        file_summary(&m),
        "File: src/lib.rs (module: lib, rust)\nExports: A, b\nImports: none\nPurpose: (none extracted)"
    );
    assert_eq!(file_tuple(&m), "src/lib.rs|rust|A,b||");
}
