use code_rag::import_match::import_matches;

// ---- Rust ----

#[test]
fn rust_crate_anchored() {
    assert!(import_matches(
        "code-rag/src/ingestion/parser.rs",
        "crate::ingestion::parser",
        "code-rag/src/other.rs"
    ));
    assert!(import_matches(
        "code-rag/src/ingestion/parser/mod.rs",
        "crate::ingestion::parser",
        "code-rag/src/other.rs"
    ));
    // Anchored: a different parent dir must not match.
    assert!(!import_matches(
        "code-rag/src/other/parser.rs",
        "crate::ingestion::parser",
        "code-rag/src/other.rs"
    ));
    // Boundary: `stion/parser.rs` inside a longer segment must not match.
    assert!(!import_matches(
        "code-rag/src/xingestion/parser.rs",
        "crate::ingestion::parser",
        "code-rag/src/other.rs"
    ));
}

#[test]
fn rust_super_resolves_to_sibling_module_only() {
    // From p/src/languages/rust.rs, `use super::helper::X`: the module of
    // rust.rs has its children in languages/rust/, so one `super` is the
    // `languages` directory module → helper resolves to a sibling file.
    assert!(import_matches(
        "p/src/languages/helper.rs",
        "super::helper",
        "p/src/languages/rust.rs"
    ));
    // The old matcher's failure mode: same name in a faraway dir.
    assert!(!import_matches(
        "p/other/helper.rs",
        "super::helper",
        "p/src/languages/rust.rs"
    ));
    // From a mod.rs, super walks up immediately.
    assert!(import_matches(
        "p/src/helper.rs",
        "super::helper",
        "p/src/languages/mod.rs"
    ));
}

#[test]
fn rust_self_is_child_module() {
    // dir module (mod.rs): self::x → sibling file in same dir.
    assert!(import_matches(
        "p/src/ingestion/reconcile.rs",
        "self::reconcile",
        "p/src/ingestion/mod.rs"
    ));
    // plain file c.rs: self::x → child at c/x.rs.
    assert!(import_matches("p/src/c/x.rs", "self::x", "p/src/c.rs"));
    assert!(!import_matches("p/src/x.rs", "self::x", "p/src/c.rs"));
}

#[test]
fn rust_cross_crate_underscore_hyphen() {
    assert!(import_matches(
        "code-rag/crates/code-rag-types/src/lib.rs",
        "code_rag_types",
        "code-rag/crates/code-rag-store/src/vector_store.rs"
    ));
    assert!(import_matches(
        "code-rag/crates/code-rag-store/src/seams.rs",
        "code_rag_store::seams",
        "code-rag/crates/code-raptor/src/lib.rs"
    ));
    // std/serde fail the /src anchors naturally.
    assert!(!import_matches(
        "p/src/collections.rs",
        "std::collections",
        "p/src/a.rs"
    ));
}

// ---- Python ----

#[test]
fn python_absolute_dotted() {
    assert!(import_matches(
        "app/utils/helper.py",
        "utils.helper",
        "app/main.py"
    ));
    assert!(import_matches(
        "app/utils/helper/__init__.py",
        "utils.helper",
        "app/main.py"
    ));
    assert!(!import_matches(
        "app/other/helper.py",
        "utils.helper",
        "app/main.py"
    ));
}

#[test]
fn python_relative_dots() {
    // .helpers from pkg/mod.py → pkg/helpers.py, not any helpers.py.
    assert!(import_matches(
        "app/pkg/helpers.py",
        ".helpers",
        "app/pkg/mod.py"
    ));
    assert!(!import_matches(
        "app/other/helpers.py",
        ".helpers",
        "app/pkg/mod.py"
    ));
    // ..sub.mod walks up one package.
    assert!(import_matches(
        "app/sub/mod.py",
        "..sub.mod",
        "app/pkg/leaf.py"
    ));
}

#[test]
fn python_bare_dot_is_bounded() {
    // from . import x → only the package itself, never everything.
    assert!(import_matches("app/pkg/__init__.py", ".", "app/pkg/mod.py"));
    assert!(import_matches("app/pkg/sibling.py", ".", "app/pkg/mod.py"));
    assert!(!import_matches("app/other/thing.py", ".", "app/pkg/mod.py"));
}

// ---- TypeScript ----

#[test]
fn ts_relative_resolves() {
    assert!(import_matches(
        "web/src/utils/format.ts",
        "./utils/format",
        "web/src/App.tsx"
    ));
    assert!(import_matches(
        "web/src/utils/index.ts",
        "./utils",
        "web/src/App.tsx"
    ));
    assert!(import_matches(
        "web/src/lib/api.tsx",
        "../lib/api",
        "web/src/pages/Home.tsx"
    ));
    // .js specifier resolves to the .ts source.
    assert!(import_matches(
        "web/src/store.ts",
        "./store.js",
        "web/src/App.tsx"
    ));
}

#[test]
fn ts_bare_and_scoped_are_external() {
    assert!(!import_matches(
        "web/src/react.ts",
        "react",
        "web/src/App.tsx"
    ));
    assert!(!import_matches(
        "web/src/scope/pkg.ts",
        "@scope/pkg",
        "web/src/App.tsx"
    ));
    // No substring matching: 'utils' vs my_utils_old.
    assert!(!import_matches(
        "web/src/my_utils_old/x.ts",
        "utils",
        "web/src/App.tsx"
    ));
}

#[test]
fn ts_escaping_root_never_matches() {
    assert!(!import_matches("x.ts", "../../../x", "web/App.tsx"));
}

// ---- Go ----

#[test]
fn go_module_relative_package() {
    assert!(import_matches(
        "myapp/internal/store/store.go",
        "myapp/internal/store",
        "myapp/cmd/main.go"
    ));
    // Module prefix stripped: portfolio paths carry a project prefix the
    // import path lacks — the ≥2-segment suffix still anchors.
    assert!(import_matches(
        "proj/app/internal/store/db.go",
        "app/internal/store",
        "proj/app/cmd/main.go"
    ));
}

#[test]
fn go_external_and_single_segment_rejected() {
    // Single-segment → stdlib/external.
    assert!(!import_matches("p/fmt/x.go", "fmt", "p/main.go"));
    // Domain path (dot in first segment) → external module.
    assert!(!import_matches(
        "p/github/com/sirupsen/logrus/log.go",
        "github.com/sirupsen/logrus",
        "p/main.go"
    ));
    // ≥2-segment remainder required: a bare `store` dir elsewhere must not
    // match `aaa/bbb/store`.
    assert!(!import_matches(
        "p/store/x.go",
        "aaa/bbb/store",
        "p/main.go"
    ));
}

// ---- cross-language guards ----

#[test]
fn candidate_extension_must_match_language() {
    assert!(!import_matches(
        "app/utils/helper.py",
        "crate::utils::helper",
        "p/src/a.rs"
    ));
    assert!(!import_matches(
        "p/src/utils/helper.rs",
        "utils.helper",
        "app/main.py"
    ));
}
