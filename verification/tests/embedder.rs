use code_rag::embedder::{format_code_for_embedding, format_crate_for_embedding, format_module_doc_for_embedding,
    format_readme_for_embedding, format_signature_for_embedding, EmbedError};
use code_rag::errors::{EngineError, LlmError, RerankError};

#[test]
fn test_format_code_for_embedding_with_docstring() {
    let result = format_code_for_embedding(
        "process_data",
        "rust",
        Some("Processes input data and returns results"),
        "fn process_data() {}",
        &[],
        None,
    );
    assert!(result.contains("process_data (rust)"));
    assert!(result.contains("Processes input data"));
    assert!(result.contains("fn process_data"));
}

#[test]
fn test_format_code_for_embedding_without_docstring() {
    let result = format_code_for_embedding("helper", "python", None, "def helper(): pass", &[], None);
    assert!(result.contains("helper (python)"));
    assert!(result.contains("def helper"));
    assert!(!result.contains("\n\n")); // no empty docstring line
}

#[test]
fn test_format_code_with_signature() {
    let result = format_code_for_embedding("foo", "rust", None, "fn foo() {}", &[], Some("pub fn foo() -> bool"));
    assert!(result.contains("pub fn foo() -> bool (rust)"));
    assert!(!result.contains("\nfoo (rust)")); // signature replaces identifier
}

#[test]
fn test_format_code_with_calls() {
    let result = format_code_for_embedding(
        "foo",
        "rust",
        None,
        "fn foo() {}",
        &["bar".to_string(), "baz".to_string()],
        None,
    );
    assert!(result.contains("Calls: bar, baz"));
}

#[test]
fn test_format_code_without_calls() {
    let result = format_code_for_embedding("foo", "rust", None, "fn foo() {}", &[], None);
    assert!(!result.contains("Calls:"));
}

#[test]
fn test_format_readme_for_embedding() {
    let result = format_readme_for_embedding("my_project", "# Title\nSome content");
    assert!(result.starts_with("Project: my_project"));
    assert!(result.contains("# Title"));
}

#[test]
fn test_format_signature_for_embedding_with_docstring() {
    let result = format_signature_for_embedding(
        Some("pub fn parse(input: &str) -> Result<Ast, ParseError>"),
        "rust",
        Some("Parse input into an AST"),
    );
    let s = result.expect("signature present → Some");
    assert!(s.contains("pub fn parse"));
    assert!(s.contains("(rust)"));
    assert!(s.contains("Parse input into an AST"));
}

#[test]
fn test_format_signature_none_returns_none() {
    let result = format_signature_for_embedding(None, "rust", Some("doc"));
    assert!(result.is_none());
}

#[test]
fn test_format_signature_without_docstring() {
    let result = format_signature_for_embedding(Some("fn foo() -> bool"), "rust", None);
    let s = result.expect("signature present → Some");
    assert!(s.contains("fn foo() -> bool"));
    assert!(!s.contains("\n\n"));
}

#[test]
fn code_embedding_exact_text() {
    let result = format_code_for_embedding("f", "rust", Some(""), "body", &["g".to_string()], None);
    assert_eq!(result, "f (rust)\nbody\nCalls: g");
}

#[test]
fn crate_and_module_doc_formats() {
    assert_eq!(
        format_crate_for_embedding("serde", Some("Serialization"), &["a".to_string(), "b".to_string()]),
        "Crate: serde\nSerialization\nDependencies: a, b"
    );
    assert_eq!(format_crate_for_embedding("x", None, &[]), "Crate: x");
    assert_eq!(format_module_doc_for_embedding("graph", "Call graph."), "Module: graph\nCall graph.");
}

#[test]
fn error_messages() {
    assert_eq!(EmbedError::Init("boom".into()).message(), "failed to initialize embedding model: boom");
    assert_eq!(EmbedError::Embed("oops".into()).message(), "embedding generation failed: oops");
    assert_eq!(EmbedError::Poisoned.message(), "embedder mutex poisoned (a prior call panicked)");
    assert_eq!(LlmError::Generation("rate limited".into()).message(), "LLM generation failed: rate limited");
    assert_eq!(RerankError::ModelNotFound("/m".into()).message(), "model files not found at /m");
    assert_eq!(
        EngineError::Embedding(EmbedError::Poisoned).message(),
        "embedding failed: embedder mutex poisoned (a prior call panicked)"
    );
    assert_eq!(EngineError::Rerank("x".into()).message(), "reranking failed: x");
}
