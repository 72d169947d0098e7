use code_rag::handler::LanguageHandler;
use code_rag::language::ImportInfo;
use code_rag::python::PythonHandler;
use code_rag::rust::RustHandler;
use code_rag::syntax::{child_by_field, collect_nodes_by_kind, collect_type_idents, SyntaxNode};

const RUST_DEFS: [&str; 7] =
    ["function_item", "struct_item", "enum_item", "trait_item", "impl_item", "type_item", "macro_definition"];
const PYTHON_DEFS: [&str; 2] = ["function_definition", "class_definition"];

/// The first definition node in source order, as the handlers' queries
/// capture it.
fn first_def<'a>(n: &'a SyntaxNode, kinds: &[&str]) -> Option<&'a SyntaxNode> {
    if kinds.contains(&n.kind.as_str()) {
        return Some(n);
    }
    n.children.iter().find_map(|c| first_def(c, kinds))
}

fn all_defs<'a>(n: &'a SyntaxNode, kinds: &[&str], out: &mut Vec<&'a SyntaxNode>) {
    if kinds.contains(&n.kind.as_str()) {
        out.push(n);
    }
    for c in &n.children {
        all_defs(c, kinds, out);
    }
}

fn rust_doc(source: &str) -> Option<String> {
    let root = RustHandler.parse(source).unwrap();
    let def = first_def(&root, &RUST_DEFS)?;
    RustHandler.extract_docstring(source, def)
}

fn rust_calls(source: &str) -> Vec<String> {
    let root = RustHandler.parse(source).unwrap();
    match first_def(&root, &RUST_DEFS) {
        Some(def) => RustHandler.extract_calls(def),
        None => Vec::new(),
    }
}

fn rust_imports(source: &str) -> Vec<ImportInfo> {
    let root = RustHandler.parse(source).unwrap();
    RustHandler.extract_file_imports(&root)
}

/// (identifier, docstring) of every Python definition, as the ingestion
/// pipeline pairs them.
fn python_chunks(source: &str) -> Vec<(String, Option<String>)> {
    let root = PythonHandler.parse(source).unwrap();
    let mut defs = Vec::new();
    all_defs(&root, &PYTHON_DEFS, &mut defs);
    defs.iter()
        .map(|d| {
            let name = child_by_field(d, "name").map(|n| n.text.clone()).unwrap_or_default();
            (name, PythonHandler.extract_docstring(d))
        })
        .collect()
}

fn python_calls(source: &str) -> Vec<String> {
    let root = PythonHandler.parse(source).unwrap();
    match first_def(&root, &PYTHON_DEFS) {
        Some(def) => PythonHandler.extract_calls(def),
        None => Vec::new(),
    }
}

fn python_imports(source: &str) -> Vec<ImportInfo> {
    let root = PythonHandler.parse(source).unwrap();
    PythonHandler.extract_file_imports(&root)
}

// ---- Rust docstrings -------------------------------------------------------

#[test]
fn test_rust_doc_simple() {
    let doc = rust_doc("/// Calculates the factorial.\nfn factorial() {}");
    assert_eq!(doc, Some("Calculates the factorial.".to_string()));
}

#[test]
fn test_rust_doc_multiline() {
    let doc = rust_doc("/// Line one.\n/// Line two.\nfn foo() {}");
    assert_eq!(doc, Some("Line one.\nLine two.".to_string()));
}

#[test]
fn test_rust_doc_with_sections() {
    let source = "/// Summary.\n///\n/// # Arguments\n///\n/// * `x` - the value\nfn foo() {}";
    let doc = rust_doc(source);
    assert_eq!(doc, Some("Summary.\n\n# Arguments\n\n* `x` - the value".to_string()));
}

#[test]
fn test_rust_doc_with_attributes() {
    let source = "/// Creates a new instance.\n#[derive(Debug, Clone)]\nstruct Config {}";
    let doc = rust_doc(source);
    assert_eq!(doc, Some("Creates a new instance.".to_string()));
}

#[test]
fn test_rust_doc_attr_form() {
    let doc = rust_doc("#[doc = \"Attribute docs.\"]\nfn foo() {}");
    assert_eq!(doc, Some("Attribute docs.".to_string()));
}

#[test]
fn test_rust_no_doc() {
    let doc = rust_doc("fn foo() {}");
    assert_eq!(doc, None);
}

#[test]
fn test_rust_doc_pipeline() {
    let source = "/// Pipeline test.\nfn foo() {}";
    let root = RustHandler.parse(source).unwrap();
    let mut defs = Vec::new();
    all_defs(&root, &RUST_DEFS, &mut defs);
    assert_eq!(defs.len(), 1);
    assert_eq!(RustHandler.extract_docstring(source, defs[0]), Some("Pipeline test.".to_string()));
    assert_eq!(RustHandler.name(), "rust");
    assert_eq!(RustHandler.extensions(), vec!["rs"]);
}

// ---- Rust calls and imports ------------------------------------------------

#[test]
fn test_rust_extract_calls_simple() {
    let calls = rust_calls("fn foo() { bar(); baz(); }");
    assert_eq!(calls, vec!["bar", "baz"]);
}

#[test]
fn test_rust_extract_calls_method() {
    let calls = rust_calls("fn foo() { self.bar(); x.baz(); }");
    assert_eq!(calls, vec!["bar", "baz"]);
}

#[test]
fn test_rust_extract_calls_scoped() {
    let calls = rust_calls("fn foo() { module::bar(); std::mem::swap(); }");
    assert_eq!(calls, vec!["bar", "swap"]);
}

#[test]
fn test_rust_extract_calls_nested() {
    let calls = rust_calls("fn foo() { bar(baz()); }");
    assert_eq!(calls, vec!["bar", "baz"]);
}

#[test]
fn test_rust_extract_calls_empty() {
    let calls = rust_calls("fn foo() { let x = 1; }");
    assert!(calls.is_empty());
}

#[test]
fn test_rust_extract_calls_dedup() {
    let calls = rust_calls("fn foo() { bar(); bar(); }");
    assert_eq!(calls, vec!["bar"]);
}

#[test]
fn test_rust_import_simple() {
    let imports = rust_imports("use crate::ingestion::parser;\nfn foo() {}");
    assert_eq!(imports.len(), 1);
    assert_eq!(imports[0].imported_name, "parser");
    assert_eq!(imports[0].source_path, "crate::ingestion");
}

#[test]
fn test_rust_import_scoped_list() {
    let imports = rust_imports("use crate::module::{foo, bar};\nfn baz() {}");
    assert_eq!(imports.len(), 2);
    assert!(imports.iter().any(|i| i.imported_name == "foo"));
    assert!(imports.iter().any(|i| i.imported_name == "bar"));
    assert!(imports.iter().all(|i| i.source_path == "crate::module"));
}

#[test]
fn test_rust_import_none() {
    let imports = rust_imports("fn foo() {}");
    assert!(imports.is_empty());
}

#[test]
fn rust_imports_aliases_and_nested_paths() {
    let imports = rust_imports("use a::b::c as d;\nuse x::{y::z, w as v};\nfn f() {}");
    let got: Vec<(&str, &str)> =
        imports.iter().map(|i| (i.imported_name.as_str(), i.source_path.as_str())).collect();
    assert_eq!(got, vec![("c", "a::b"), ("z", "x::y"), ("w", "x")]);
}

#[test]
fn rust_signatures_from_tree() {
    let source = "pub  fn retrieve(\n    query: &str,\n) -> usize { 1 }\npub struct VectorStore { x: u8 }\npub struct Unit;";
    let root = RustHandler.parse(source).unwrap();
    let mut defs = Vec::new();
    all_defs(&root, &RUST_DEFS, &mut defs);
    let sigs: Vec<Option<String>> = defs.iter().map(|d| RustHandler.extract_signature(d)).collect();
    assert_eq!(
        sigs,
        vec![
            Some("pub fn retrieve( query: &str, ) -> usize".to_string()),
            Some("pub struct VectorStore".to_string()),
            Some("pub struct Unit".to_string()),
        ]
    );
}

#[test]
fn rust_signature_with_multibyte_text() {
    let source = "fn größe(ä: u8) -> u8 { ä }";
    let root = RustHandler.parse(source).unwrap();
    let def = first_def(&root, &RUST_DEFS).unwrap();
    assert_eq!(RustHandler.extract_signature(def), Some("fn größe(ä: u8) -> u8".to_string()));
}

// ---- Python docstrings -----------------------------------------------------

#[test]
fn test_python_doc_simple() {
    let chunks = python_chunks("def foo():\n    \"\"\"Simple docstring.\"\"\"\n    pass");
    assert_eq!(chunks.len(), 1);
    assert_eq!(chunks[0].1, Some("Simple docstring.".to_string()));
}

#[test]
fn test_python_doc_multiline() {
    let chunks = python_chunks("def foo():\n    \"\"\"\n    Line one.\n    Line two.\n    \"\"\"\n    pass");
    assert_eq!(chunks.len(), 1);
    assert_eq!(chunks[0].1, Some("Line one.\nLine two.".to_string()));
}

#[test]
fn test_python_doc_class() {
    let chunks = python_chunks("class Foo:\n    \"\"\"Class docstring.\"\"\"\n    pass");
    assert!(chunks.iter().any(|c| c.0 == "Foo" && c.1 == Some("Class docstring.".to_string())));
}

#[test]
fn test_python_doc_single_quotes() {
    let chunks = python_chunks("def foo():\n    '''Single quote docs.'''\n    pass");
    assert_eq!(chunks.len(), 1);
    assert_eq!(chunks[0].1, Some("Single quote docs.".to_string()));
}

#[test]
fn test_python_no_doc() {
    let chunks = python_chunks("def foo():\n    x = 1\n    return x");
    assert_eq!(chunks.len(), 1);
    assert_eq!(chunks[0].1, None);
}

#[test]
fn test_python_doc_pipeline() {
    let chunks = python_chunks("def greet(name):\n    \"\"\"Return a greeting.\"\"\"\n    return f\"Hello {name}\"");
    assert_eq!(chunks.len(), 1);
    assert_eq!(chunks[0].0, "greet");
    assert_eq!(chunks[0].1, Some("Return a greeting.".to_string()));
    assert_eq!(PythonHandler.name(), "python");
    assert_eq!(PythonHandler.extensions(), vec!["py"]);
}

// ---- Python calls, imports and signatures ----------------------------------

#[test]
fn test_python_extract_calls_simple() {
    let calls = python_calls("def foo():\n    bar()\n    baz()");
    assert_eq!(calls, vec!["bar", "baz"]);
}

#[test]
fn test_python_extract_calls_attribute() {
    let calls = python_calls("def foo():\n    self.bar()\n    obj.baz()");
    assert_eq!(calls, vec!["bar", "baz"]);
}

#[test]
fn test_python_extract_calls_empty() {
    let calls = python_calls("def foo():\n    x = 1");
    assert!(calls.is_empty());
}

#[test]
fn test_python_extract_calls_dedup() {
    let calls = python_calls("def foo():\n    bar()\n    bar()");
    assert_eq!(calls, vec!["bar"]);
}

#[test]
fn test_python_import_from() {
    let imports = python_imports("from utils import normalize_path\ndef foo(): pass");
    assert_eq!(imports.len(), 1);
    assert_eq!(imports[0].imported_name, "normalize_path");
    assert_eq!(imports[0].source_path, "utils");
}

#[test]
fn test_python_import_from_multiple() {
    let imports = python_imports("from os.path import join, dirname\ndef foo(): pass");
    assert_eq!(imports.len(), 2);
    assert!(imports.iter().any(|i| i.imported_name == "join"));
    assert!(imports.iter().any(|i| i.imported_name == "dirname"));
}

#[test]
fn test_python_no_imports() {
    let imports = python_imports("def foo():\n    pass");
    assert!(imports.is_empty());
}

#[test]
fn python_signature_from_tree() {
    let root = PythonHandler.parse("class  Foo(Base):\n    pass\n").unwrap();
    let def = first_def(&root, &PYTHON_DEFS).unwrap();
    assert_eq!(PythonHandler.extract_signature(def), Some("class Foo(Base)".to_string()));
}

// ---- Generic tree walks ----------------------------------------------------

#[test]
fn type_idents_mark_generic_arguments() {
    let root = RustHandler.parse("struct S { f: Vec<CodeChunk> }").unwrap();
    let mut types = Vec::new();
    all_defs(&root, &["generic_type"], &mut types);
    let idents = collect_type_idents(types[0], &["type_identifier"], &["type_arguments"]);
    assert_eq!(idents, vec![("Vec".to_string(), false), ("CodeChunk".to_string(), true)]);
}

#[test]
fn nodes_by_kind_finds_nested_descendants_only() {
    let root = RustHandler.parse("fn f() { g(h()); }").unwrap();
    let calls = collect_nodes_by_kind(&root, &["call_expression"]);
    let texts: Vec<&str> = calls.iter().map(|n| n.text.as_str()).collect();
    assert_eq!(texts, vec!["g(h())", "h()"]);
    let def = first_def(&root, &RUST_DEFS).unwrap();
    assert!(collect_nodes_by_kind(def, &["function_item"]).is_empty());
}

fn summary<H: LanguageHandler>(h: &H, source: &str, kinds: &[&str]) -> (String, Vec<String>, Option<String>, Option<String>) {
    let root = LanguageHandler::parse(h, source).unwrap();
    let def = first_def(&root, kinds).unwrap();
    (
        LanguageHandler::name(h).to_string(),
        LanguageHandler::extract_calls(h, def),
        LanguageHandler::extract_signature(h, def),
        LanguageHandler::extract_docstring(h, source, def),
    )
}

#[test]
fn handlers_share_one_interface() {
    let (name, calls, sig, doc) =
        summary(&RustHandler, "/// Adds.\npub fn add(a: u32) -> u32 {\n    helper(a)\n}\n", &RUST_DEFS);
    assert_eq!(name, "rust");
    assert_eq!(calls, vec!["helper".to_string()]);
    assert_eq!(sig, Some("pub fn add(a: u32) -> u32".to_string()));
    assert_eq!(doc, Some("Adds.".to_string()));
    let (name, calls, _sig, doc) =
        summary(&PythonHandler, "def f(x):\n    \"\"\"Doc.\"\"\"\n    return g(x)\n", &PYTHON_DEFS);
    assert_eq!(name, "python");
    assert_eq!(calls, vec!["g".to_string()]);
    assert_eq!(doc, Some("Doc.".to_string()));
    assert_eq!(LanguageHandler::extensions(&RustHandler), vec!["rs"]);
    assert_eq!(LanguageHandler::extensions(&PythonHandler), vec!["py"]);
}

#[test]
fn handler_queries_capture_each_definition_kind() {
    let rq = LanguageHandler::query_string(&RustHandler);
    assert_eq!(rq.lines().count(), 7);
    assert!(rq.starts_with("(function_item name: (identifier) @name) @body\n"));
    assert!(rq.ends_with("(macro_definition name: (identifier) @name) @body"));
    let pq = LanguageHandler::query_string(&PythonHandler);
    assert_eq!(
        pq,
        "(function_definition name: (identifier) @name) @body\n(class_definition name: (identifier) @name) @body"
    );
}
