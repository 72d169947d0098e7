use code_rag::text::{build_searchable_text, split_camel_case, tokenize, IdfTable};

// ---- tokenize ---------------------------------------------------------------

#[test]
fn tokenize_lowercases_and_splits_snake_case() {
    assert_eq!(tokenize("distance_to_relevance"), vec!["distance", "to", "relevance"]);
}

#[test]
fn tokenize_case_insensitive_keeps_joined_camel_case() {
    // The tokenizer splits only on non-alphanumeric characters.
    assert_eq!(tokenize("VectorStore"), vec!["vectorstore"]);
}

#[test]
fn tokenize_drops_empty_segments() {
    assert_eq!(tokenize("foo   bar"), vec!["foo", "bar"]);
    assert_eq!(tokenize("--foo--"), vec!["foo"]);
    assert!(tokenize("").is_empty());
}

#[test]
fn tokenize_mixed_punctuation() {
    assert_eq!(tokenize("foo.bar,baz;qux"), vec!["foo", "bar", "baz", "qux"]);
}

// ---- IdfTable ---------------------------------------------------------------

#[test]
fn idf_build_empty_corpus() {
    let idf = IdfTable::build(&[]);
    assert_eq!(idf.num_docs, 0);
    assert!(idf.doc_frequencies.is_empty());
}

#[test]
fn idf_build_counts_unique_tokens_per_doc() {
    // "foo foo bar" contributes +1 for foo and +1 for bar, not +2 for foo.
    let idf = IdfTable::build(&["foo foo bar", "foo", "baz"]);
    assert_eq!(idf.num_docs, 3);
    assert_eq!(idf.doc_frequency("foo"), 2);
    assert_eq!(idf.doc_frequency("bar"), 1);
    assert_eq!(idf.doc_frequency("baz"), 1);
}

#[test]
fn idf_unknown_term_has_zero_frequency() {
    let idf = IdfTable::build(&["Alpha beta", "BETA gamma"]);
    assert_eq!(idf.doc_frequency("beta"), 2);
    assert_eq!(idf.doc_frequency("alpha"), 1);
    assert_eq!(idf.doc_frequency("delta"), 0);
    assert_eq!(idf.doc_frequencies.len(), 3);
}

// ---- split_camel_case -------------------------------------------------------

#[test]
fn split_camel_case_pascal() {
    assert_eq!(split_camel_case("VectorStore"), "vector store");
}

#[test]
fn split_camel_case_acronym_run() {
    assert_eq!(split_camel_case("parseHTTPResponse"), "parse http response");
}

#[test]
fn split_camel_case_snake_unchanged() {
    assert_eq!(split_camel_case("snake_case"), "snake_case");
}

#[test]
fn split_camel_case_edge_cases() {
    assert_eq!(split_camel_case(""), "");
    assert_eq!(split_camel_case("HTTP"), "http");
    assert_eq!(split_camel_case("getX"), "get x");
}

// ---- build_searchable_text --------------------------------------------------

#[test]
fn build_searchable_text_boosts_identifier_twice() {
    let out = build_searchable_text("foo", None, None);
    assert!(out.contains("foo foo"));
    assert_eq!(out, "foo foo");
}

#[test]
fn build_searchable_text_includes_split_for_camel() {
    let out = build_searchable_text("VectorStore", None, None);
    assert!(out.contains("vector store"), "missing split: {out}");
    assert!(out.contains("VectorStore"));
    assert_eq!(out, "VectorStore VectorStore vector store");
}

#[test]
fn build_searchable_text_omits_empty_docstring() {
    let with_empty = build_searchable_text("foo", None, Some(""));
    let without = build_searchable_text("foo", None, None);
    assert_eq!(with_empty, without);
}

#[test]
fn build_searchable_text_includes_signature_and_docstring() {
    let out = build_searchable_text("foo", Some("fn foo()"), Some("does a thing"));
    assert!(out.contains("fn foo()"));
    assert!(out.contains("does a thing"));
    assert_eq!(out, "foo foo\nfn foo()\ndoes a thing");
}

#[test]
fn lines_keep_a_bare_final_carriage_return() {
    let lines = |s: &str| -> Vec<String> {
        code_rag::strings::lines_vec(&s.chars().collect()).into_iter().map(|l| l.into_iter().collect()).collect()
    };
    for s in ["b\r", "a\r\nb\r\n", "x\r\n\r", "a\nb", "", "\n", "a\r\r\n"] {
        let expected: Vec<String> = s.lines().map(|l| l.to_string()).collect();
        assert_eq!(lines(s), expected, "input {:?}", s);
    }
    assert_eq!(lines("b\r"), vec!["b\r".to_string()]);
}
