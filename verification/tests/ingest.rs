use code_rag::folder_ingest::{chunk_parent_folder, is_function_node, is_type_node, project_name_for_folder};
use code_rag::language::extract_rationale_targets;
use code_rag::python::{dedent_docstring, last_dotted_segment, parse_python_docstring, python_signature_of};
use code_rag::rust::{rust_docstring, rust_signature_of, use_list_item_import, use_list_prefix, use_path_import};
use code_rag::schema::{check_schema_compat, check_sidecar, parse_schema_version, NumberError, SCHEMA_VERSION};

// ---- folder ingestion helpers ----------------------------------------------

#[test]
fn chunk_parent_folder_splits_at_last_slash() {
    assert_eq!(
        chunk_parent_folder("proj/crates/engine/src/lib.rs"),
        Some("proj/crates/engine/src".to_string())
    );
    assert_eq!(chunk_parent_folder("toplevel.rs"), None);
}

#[test]
fn project_name_resolution() {
    assert_eq!(project_name_for_folder("a/b", "root", Some("cli")), "cli");
    assert_eq!(project_name_for_folder("", "root", None), "root");
    assert_eq!(project_name_for_folder("proj/src/x", "root", None), "proj");
}

#[test]
fn node_kind_classification() {
    assert!(is_type_node("struct_item"));
    assert!(is_type_node("interface_declaration"));
    assert!(!is_type_node("function_item"));
    assert!(is_function_node("lexical_declaration"));
    assert!(is_function_node("method_definition"));
    assert!(!is_function_node("class_definition"));
}

// ---- Python docstrings -----------------------------------------------------

#[test]
fn python_docstring_edge_cases() {
    assert_eq!(parse_python_docstring("\"x\""), Some("x".to_string()));
    assert_eq!(parse_python_docstring("\"\"\"   \"\"\""), None);
    assert_eq!(parse_python_docstring("'"), None);
    assert_eq!(dedent_docstring("Title\n      deep\n    shallow\n\n"), "Title\n  deep\nshallow");
}

#[test]
fn python_signature_and_dotted_names() {
    assert_eq!(python_signature_of("def  foo(a,\n   b) ->  int:"), Some("def foo(a, b) -> int".to_string()));
    assert_eq!(python_signature_of("  :: "), None);
    assert_eq!(last_dotted_segment("bar.baz"), "baz");
    assert_eq!(last_dotted_segment("qux"), "qux");
}

// ---- Rust docstrings -------------------------------------------------------

#[test]
fn rust_doc_stops_at_code_and_skips_blank_gap() {
    let source = "fn other() {}\n/// Doc.\n\nfn foo() {}";
    assert_eq!(rust_docstring(source, 3), Some("Doc.".to_string()));
    assert_eq!(rust_docstring("let x = 1;\nfn foo() {}", 1), None);
}

#[test]
fn rust_signatures_and_use_paths() {
    assert_eq!(rust_signature_of("pub  fn foo(\n    x: u32,\n) -> u32 "), Some("pub fn foo( x: u32, ) -> u32".to_string()));
    assert_eq!(rust_signature_of("  \n "), None);
    let imp = use_path_import("crate::ingestion::parser as p").unwrap();
    assert_eq!(imp.imported_name, "parser");
    assert_eq!(imp.source_path, "crate::ingestion");
    assert!(use_path_import("serde").is_none());
    assert_eq!(use_list_prefix("crate::module::{foo, bar}"), Some("crate::module".to_string()));
    assert_eq!(use_list_prefix("foo"), None);
    let item = use_list_item_import("sub::name as n", "crate::m");
    assert_eq!(item.imported_name, "name");
    assert_eq!(item.source_path, "crate::m::sub");
    let bare = use_list_item_import("thing", "crate::m");
    assert_eq!(bare.imported_name, "thing");
    assert_eq!(bare.source_path, "crate::m");
}

// ---- rationale comments ----------------------------------------------------

#[test]
fn rationale_targets_from_marked_comments() {
    let source = "use x;\n// WHY: needed because Reranker stalls\n// plain note about ChunkIndex\n\n# NOTE: see load_index\nfn foo() {}";
    assert_eq!(
        extract_rationale_targets(source, 5),
        vec!["load_index".to_string(), "Reranker".to_string()]
    );
    assert_eq!(extract_rationale_targets("// NOTE: see Reranker stalls\nfn foo() {}", 1), vec!["Reranker".to_string()]);
    assert_eq!(
        extract_rationale_targets("// Note: HTTP and DEBUG, Hack, Why, fooBar, max_len\nfn f() {}", 1),
        vec!["fooBar".to_string(), "max_len".to_string()]
    );
    assert!(extract_rationale_targets(source, 0).is_empty());
    assert!(extract_rationale_targets("let a = 1;\n// HACK: Foo_bar\nfn f() {}", 1).is_empty());
}

// ---- schema sentinel -------------------------------------------------------

#[test]
fn schema_version_check() {
    assert_eq!(check_schema_compat(None, "/db"), Ok(()));
    assert_eq!(check_schema_compat(Some(SCHEMA_VERSION), "/db"), Ok(()));
    let msg = check_schema_compat(Some(0), "/db").unwrap_err();
    assert!(msg.contains("schema v0") && msg.contains(&format!("v{}", SCHEMA_VERSION)));
    assert!(msg.contains("rm -rf /db") && msg.contains("--full"));
}

#[test]
fn schema_sentinel_parsing() {
    assert_eq!(parse_schema_version(" 1\n"), Ok(1));
    assert_eq!(parse_schema_version("+7"), Ok(7));
    assert_eq!(parse_schema_version("not-a-number"), Err(NumberError::InvalidDigit));
    assert_eq!(parse_schema_version(""), Err(NumberError::Empty));
    assert_eq!(parse_schema_version("4294967296"), Err(NumberError::PosOverflow));
    assert_eq!(parse_schema_version("4294967295"), Ok(4294967295));
    assert_eq!(parse_schema_version("-"), Err(NumberError::InvalidDigit));
    for s in ["0", "42", "+1", "-1", "1x", "99999999999", "", "+", " 12 "] {
        let ours = parse_schema_version(s).ok();
        let std_result = s.trim().parse::<u32>().ok();
        assert_eq!(ours, std_result, "input {s:?}");
    }
}

#[test]
fn sidecar_verdicts() {
    assert_eq!(check_sidecar(None, "/db/_schema_version", "/db"), Ok(()));
    assert_eq!(check_sidecar(Some(" 1\n"), "/db/_schema_version", "/db"), Ok(()));
    let older = check_sidecar(Some("0"), "/db/_schema_version", "/db").unwrap_err();
    assert!(older.contains("schema v0") && older.contains("v1") && older.contains("rm -rf") && older.contains("--full"));
    let garbage = check_sidecar(Some("not-a-number"), "/db/_schema_version", "/db").unwrap_err();
    assert_eq!(garbage, "/db/_schema_version is not a valid schema version: invalid digit found in string");
    assert_eq!(SCHEMA_VERSION, 1);
}
