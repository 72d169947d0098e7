//! The interface every supported language implements: its name and
//! extensions, the query capturing its definitions, parsing, and what is
//! read off a definition or a file's root
//! (docstring, calls, signature, imports). A new language is added by
//! implementing it; each method's result is pinned by the language's own
//! spec functions.
use vstd::prelude::*;
use crate::edges::import_list_view;
use crate::language::{ImportInfo, ImportView};
use crate::python::{
    PythonHandler, doc_literal, literal_strippable, python_docstring, python_file_imports, python_node_signature,
};
use crate::rust::{RustHandler, rust_doc, rust_file_imports, rust_node_signature};
use crate::sorted::sorted_strict;
use crate::strings::strings_view;
use crate::syntax::{CallSyntax, SyntaxNode, calls_in, python_parse, rust_parse};

verus! {

/// Language-specific parsing behavior.
pub trait LanguageHandler {
    /// The language's identifier.
    spec fn language_name(&self) -> Seq<char>;

    /// The file extensions it handles.
    spec fn extension_list(&self) -> Seq<Seq<char>>;

    /// The tree-sitter query that captures its definitions: `@name` the
    /// identifier, `@body` the whole definition.
    spec fn query_text(&self) -> Seq<char>;

    /// What its grammar gives for a source text.
    spec fn parsed(&self, source: Seq<char>) -> Option<SyntaxNode>;

    /// The definitions whose docstring can be read without failing.
    spec fn docstring_defined(&self, source: Seq<char>, node: SyntaxNode) -> bool;

    /// The docstring of a definition in a source text.
    spec fn docstring_of(&self, source: Seq<char>, node: SyntaxNode) -> Option<Seq<char>>;

    /// The identifiers a definition calls.
    spec fn calls_of(&self, node: SyntaxNode) -> Set<Seq<char>>;

    /// The declaration signature of a definition.
    spec fn signature_of(&self, node: SyntaxNode) -> Option<Seq<char>>;

    /// The imports declared at a file's root.
    spec fn imports_of(&self, root: SyntaxNode) -> Seq<ImportView>;

    /// Language identifier (e.g. "rust", "python").
    fn name(&self) -> (r: &'static str)
        ensures
            r@ == self.language_name(),
    ;

    /// File extensions this handler supports.
    fn extensions(&self) -> (r: Vec<&'static str>)
        ensures
            r@.map_values(|e: &'static str| e@) == self.extension_list(),
    ;

    /// Tree-sitter S-expression query for extracting code elements.
    fn query_string(&self) -> (r: &'static str)
        ensures
            r@ == self.query_text(),
    ;

    /// Parse a source text with the language's grammar.
    fn parse(&self, source: &str) -> (r: Option<SyntaxNode>)
        ensures
            r == self.parsed(source@),
    ;

    /// The docstring of a definition.
    fn extract_docstring(&self, source: &str, node: &SyntaxNode) -> (r: Option<String>)
        requires
            self.docstring_defined(source@, *node),
        ensures
            match r {
                Some(d) => self.docstring_of(source@, *node) == Some(d@),
                None => self.docstring_of(source@, *node) is None,
            },
    ;

    /// The identifiers called inside a definition, sorted, each once.
    fn extract_calls(&self, node: &SyntaxNode) -> (r: Vec<String>)
        ensures
            sorted_strict(strings_view(r@)),
            strings_view(r@).to_set() == self.calls_of(*node),
    ;

    /// The declaration signature of a definition.
    fn extract_signature(&self, node: &SyntaxNode) -> (r: Option<String>)
        ensures
            match r {
                Some(s) => self.signature_of(*node) == Some(s@),
                None => self.signature_of(*node) is None,
            },
    ;

    /// The imports declared at a file's root, in order.
    fn extract_file_imports(&self, root: &SyntaxNode) -> (r: Vec<ImportInfo>)
        ensures
            import_list_view(r@) == self.imports_of(*root),
    ;
}

impl LanguageHandler for RustHandler {
    open spec fn query_text(&self) -> Seq<char> {
        "(function_item name: (identifier) @name) @body\n(struct_item name: (type_identifier) @name) @body\n(enum_item name: (type_identifier) @name) @body\n(trait_item name: (type_identifier) @name) @body\n(impl_item type: (type_identifier) @name) @body\n(type_item name: (type_identifier) @name) @body\n(macro_definition name: (identifier) @name) @body"@
    }

    open spec fn language_name(&self) -> Seq<char> {
        "rust"@
    }

    open spec fn extension_list(&self) -> Seq<Seq<char>> {
        seq!["rs"@]
    }

    open spec fn parsed(&self, source: Seq<char>) -> Option<SyntaxNode> {
        rust_parse(source)
    }

    open spec fn docstring_defined(&self, source: Seq<char>, node: SyntaxNode) -> bool {
        true
    }

    open spec fn docstring_of(&self, source: Seq<char>, node: SyntaxNode) -> Option<Seq<char>> {
        rust_doc(source, node.start_row as nat)
    }

    open spec fn calls_of(&self, node: SyntaxNode) -> Set<Seq<char>> {
        calls_in(CallSyntax::Rust, node)
    }

    open spec fn signature_of(&self, node: SyntaxNode) -> Option<Seq<char>> {
        rust_node_signature(node)
    }

    open spec fn imports_of(&self, root: SyntaxNode) -> Seq<ImportView> {
        rust_file_imports(root.children@)
    }

    fn name(&self) -> (r: &'static str) {
        RustHandler::name(self)
    }

    fn extensions(&self) -> (r: Vec<&'static str>) {
        let r = RustHandler::extensions(self);
        assert(r@.map_values(|e: &'static str| e@) =~= seq!["rs"@]);
        r
    }

    fn query_string(&self) -> (r: &'static str) {
        "(function_item name: (identifier) @name) @body\n(struct_item name: (type_identifier) @name) @body\n(enum_item name: (type_identifier) @name) @body\n(trait_item name: (type_identifier) @name) @body\n(impl_item type: (type_identifier) @name) @body\n(type_item name: (type_identifier) @name) @body\n(macro_definition name: (identifier) @name) @body"
    }

    fn parse(&self, source: &str) -> (r: Option<SyntaxNode>) {
        RustHandler::parse(self, source)
    }

    fn extract_docstring(&self, source: &str, node: &SyntaxNode) -> (r: Option<String>) {
        RustHandler::extract_docstring(self, source, node)
    }

    fn extract_calls(&self, node: &SyntaxNode) -> (r: Vec<String>) {
        RustHandler::extract_calls(self, node)
    }

    fn extract_signature(&self, node: &SyntaxNode) -> (r: Option<String>) {
        RustHandler::extract_signature(self, node)
    }

    fn extract_file_imports(&self, root: &SyntaxNode) -> (r: Vec<ImportInfo>) {
        RustHandler::extract_file_imports(self, root)
    }
}

impl LanguageHandler for PythonHandler {
    open spec fn query_text(&self) -> Seq<char> {
        "(function_definition name: (identifier) @name) @body\n(class_definition name: (identifier) @name) @body"@
    }

    open spec fn language_name(&self) -> Seq<char> {
        "python"@
    }

    open spec fn extension_list(&self) -> Seq<Seq<char>> {
        seq!["py"@]
    }

    open spec fn parsed(&self, source: Seq<char>) -> Option<SyntaxNode> {
        python_parse(source)
    }

    open spec fn docstring_defined(&self, source: Seq<char>, node: SyntaxNode) -> bool {
        doc_literal(node) matches Some(t) ==> literal_strippable(t)
    }

    open spec fn docstring_of(&self, source: Seq<char>, node: SyntaxNode) -> Option<Seq<char>> {
        match doc_literal(node) {
            Some(t) => python_docstring(t),
            None => None,
        }
    }

    open spec fn calls_of(&self, node: SyntaxNode) -> Set<Seq<char>> {
        calls_in(CallSyntax::Python, node)
    }

    open spec fn signature_of(&self, node: SyntaxNode) -> Option<Seq<char>> {
        python_node_signature(node)
    }

    open spec fn imports_of(&self, root: SyntaxNode) -> Seq<ImportView> {
        python_file_imports(root.children@)
    }

    fn name(&self) -> (r: &'static str) {
        PythonHandler::name(self)
    }

    fn extensions(&self) -> (r: Vec<&'static str>) {
        let r = PythonHandler::extensions(self);
        assert(r@.map_values(|e: &'static str| e@) =~= seq!["py"@]);
        r
    }

    fn query_string(&self) -> (r: &'static str) {
        "(function_definition name: (identifier) @name) @body\n(class_definition name: (identifier) @name) @body"
    }

    fn parse(&self, source: &str) -> (r: Option<SyntaxNode>) {
        PythonHandler::parse(self, source)
    }

    fn extract_docstring(&self, source: &str, node: &SyntaxNode) -> (r: Option<String>) {
        PythonHandler::extract_docstring(self, node)
    }

    fn extract_calls(&self, node: &SyntaxNode) -> (r: Vec<String>) {
        PythonHandler::extract_calls(self, node)
    }

    fn extract_signature(&self, node: &SyntaxNode) -> (r: Option<String>) {
        PythonHandler::extract_signature(self, node)
    }

    fn extract_file_imports(&self, root: &SyntaxNode) -> (r: Vec<ImportInfo>) {
        PythonHandler::extract_file_imports(self, root)
    }
}

} // verus!
