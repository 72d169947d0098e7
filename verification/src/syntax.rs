//! Syntax trees as plain values, and the walks the language handlers make
//! over them: call identifiers inside a definition, and the type names a
//! type expression mentions.
use vstd::prelude::*;
use crate::sorted::{insert_sorted, sorted_strict};
use crate::language::char_bytes;
use crate::strings::{chars_of, eq, string_of, strings_view};

verus! {

/// A node of a parsed syntax tree: its grammar kind, the field it fills in
/// its parent, whether the grammar names it, its byte span and first row in
/// the source, its source text, and its children in source order.
#[derive(Debug)]
pub struct SyntaxNode {
    pub kind: String,
    pub field: Option<String>,
    pub named: bool,
    pub text: String,
    pub start_byte: usize,
    pub end_byte: usize,
    pub start_row: usize,
    pub children: Vec<SyntaxNode>,
}

#[verifier::external_type_specification]
#[verifier::external_body]
pub struct ExTsNode<'tree>(tree_sitter::Node<'tree>);

/// What parsing a source text with `tree_sitter_rust`'s grammar gives: the
/// converted tree, or `None` where tree-sitter returns no tree.
pub uninterp spec fn rust_parse(source: Seq<char>) -> Option<SyntaxNode>;

/// What parsing a source text with `tree_sitter_python`'s grammar gives, as
/// for Rust.
pub uninterp spec fn python_parse(source: Seq<char>) -> Option<SyntaxNode>;

/// Copies a tree-sitter node and its subtree into plain values: kind, the
/// field name its parent's cursor reports for it, `is_named`, byte span,
/// start row, the source text it spans, and its children in cursor order.
/// Nothing is claimed of the result: the parse wrappers below name it.
#[verifier::external_body]
fn syntax_of(node: tree_sitter::Node, field: Option<&'static str>, source: &str) -> (r: SyntaxNode) {
    let mut children = Vec::new();
    let mut cursor = node.walk();
    if cursor.goto_first_child() {
        loop {
            children.push(syntax_of(cursor.node(), cursor.field_name(), source));
            if !cursor.goto_next_sibling() {
                break;
            }
        }
    }
    let (s, e) = (node.start_byte(), node.end_byte());
    SyntaxNode { kind: node.kind().to_string(), field: field.map(|f| f.to_string()), named: node.is_named(),
        text: source[s..e].to_string(), start_byte: s, end_byte: e, start_row: node.start_position().row, children }
}

/// `tree_sitter::Parser::parse` with the `tree_sitter_rust` grammar, the
/// tree converted by `syntax_of`. The result, `None` included, depends on
/// the source text alone: the parser is fresh, the grammar fixed, and no
/// timeout, cancellation flag or old tree is given, so tree-sitter's answer
/// (a tree, or none after an external-scanner error) is a function of the
/// text.
#[verifier::external_body]
fn parse_with_rust_grammar(source: &str) -> (r: Option<SyntaxNode>)
    ensures
        r == rust_parse(source@),
{
    let mut parser = tree_sitter::Parser::new();
    parser.set_language(&tree_sitter_rust::LANGUAGE.into()).ok()?;
    let tree = parser.parse(source, None)?;
    Some(syntax_of(tree.root_node(), None, source))
}

/// `tree_sitter::Parser::parse` with the `tree_sitter_python` grammar, as
/// for Rust above.
#[verifier::external_body]
fn parse_with_python_grammar(source: &str) -> (r: Option<SyntaxNode>)
    ensures
        r == python_parse(source@),
{
    let mut parser = tree_sitter::Parser::new();
    parser.set_language(&tree_sitter_python::LANGUAGE.into()).ok()?;
    let tree = parser.parse(source, None)?;
    Some(syntax_of(tree.root_node(), None, source))
}

/// Parse Rust source into a syntax tree: exactly what tree-sitter's Rust
/// grammar gives for the text.
pub fn parse_rust(source: &str) -> (r: Option<SyntaxNode>)
    ensures
        r == rust_parse(source@),
{
    parse_with_rust_grammar(source)
}

/// Parse Python source into a syntax tree: exactly what tree-sitter's
/// Python grammar gives for the text.
pub fn parse_python(source: &str) -> (r: Option<SyntaxNode>)
    ensures
        r == python_parse(source@),
{
    parse_with_python_grammar(source)
}

// ---------------------------------------------------------------------------
// Navigation
// ---------------------------------------------------------------------------

/// The node fills field `f` of its parent.
pub open spec fn fills(n: SyntaxNode, f: Seq<char>) -> bool {
    match n.field {
        Some(x) => x@ == f,
        None => false,
    }
}

/// The first child filling field `f` (tree-sitter's `child_by_field_name`).
pub open spec fn field_child(cs: Seq<SyntaxNode>, f: Seq<char>) -> Option<SyntaxNode>
    decreases cs.len(),
{
    if cs.len() == 0 {
        None
    } else if fills(cs[0], f) {
        Some(cs[0])
    } else {
        field_child(cs.drop_first(), f)
    }
}

/// Whether a node has kind `k`.
pub fn has_kind(n: &SyntaxNode, k: &str) -> (r: bool)
    ensures
        r == (n.kind@ == k@),
{
    eq(&chars_of(n.kind.as_str()), &chars_of(k))
}

fn fills_field(n: &SyntaxNode, f: &str) -> (r: bool)
    ensures
        r == fills(*n, f@),
{
    match &n.field {
        Some(x) => eq(&chars_of(x.as_str()), &chars_of(f)),
        None => false,
    }
}

/// The first child of `n` filling field `f`.
pub fn child_by_field<'a>(n: &'a SyntaxNode, f: &str) -> (r: Option<&'a SyntaxNode>)
    ensures
        match r {
            Some(c) => field_child(n.children@, f@) == Some(*c),
            None => field_child(n.children@, f@) is None,
        },
{
    let ghost cs = n.children@;
    let mut i: usize = 0;
    assert(cs.skip(0) =~= cs);
    while i < n.children.len()
        invariant
            i <= n.children.len(),
            cs == n.children@,
            field_child(cs, f@) == field_child(cs.skip(i as int), f@),
        decreases n.children.len() - i,
    {
        assert(cs.skip(i as int)[0] == cs[i as int]);
        assert(cs.skip(i as int).drop_first() =~= cs.skip(i + 1));
        if fills_field(&n.children[i], f) {
            return Some(&n.children[i]);
        }
        i += 1;
    }
    None
}

// ---------------------------------------------------------------------------
// Call identifiers
// ---------------------------------------------------------------------------

/// The grammar whose call expressions are read.
#[derive(Debug, Clone, Copy, PartialEq, Eq, Structural)]
pub enum CallSyntax {
    /// `call_expression` with `function:` an identifier, a field
    /// expression (its `field:`) or a scoped identifier (its `name:`).
    Rust,
    /// `call` with `function:` an identifier or an attribute (its
    /// `attribute:`).
    Python,
}

/// The identifier a node calls, when it is a call expression of a shape the
/// grammar's handler reads.
pub open spec fn call_name(g: CallSyntax, n: SyntaxNode) -> Option<Seq<char>> {
    let call_kind = match g {
        CallSyntax::Rust => "call_expression"@,
        CallSyntax::Python => "call"@,
    };
    if n.kind@ != call_kind {
        None
    } else {
        match field_child(n.children@, "function"@) {
            None => None,
            Some(func) => if func.kind@ == "identifier"@ {
                Some(func.text@)
            } else {
                let inner = match g {
                    CallSyntax::Rust => if func.kind@ == "field_expression"@ {
                        field_child(func.children@, "field"@)
                    } else if func.kind@ == "scoped_identifier"@ {
                        field_child(func.children@, "name"@)
                    } else {
                        None
                    },
                    CallSyntax::Python => if func.kind@ == "attribute"@ {
                        field_child(func.children@, "attribute"@)
                    } else {
                        None
                    },
                };
                match inner {
                    Some(x) => Some(x.text@),
                    None => None,
                }
            },
        }
    }
}

/// Every identifier called anywhere in the subtree of `n`.
pub open spec fn calls_in(g: CallSyntax, n: SyntaxNode) -> Set<Seq<char>>
    decreases n,
{
    let own = match call_name(g, n) {
        Some(x) => set![x],
        None => Set::empty(),
    };
    own + calls_among(g, n.children@)
}

/// Every identifier called in the subtrees of `cs`.
pub open spec fn calls_among(g: CallSyntax, cs: Seq<SyntaxNode>) -> Set<Seq<char>>
    decreases cs,
{
    if cs.len() == 0 {
        Set::empty()
    } else {
        calls_among(g, cs.drop_last()) + calls_in(g, cs.last())
    }
}

fn call_name_of(g: CallSyntax, n: &SyntaxNode) -> (r: Option<String>)
    ensures
        match r {
            Some(s) => call_name(g, *n) == Some(s@),
            None => call_name(g, *n) is None,
        },
{
    let is_call = match g {
        CallSyntax::Rust => has_kind(n, "call_expression"),
        CallSyntax::Python => has_kind(n, "call"),
    };
    proof {
        reveal_strlit("call_expression");
        reveal_strlit("call");
    }
    if !is_call {
        return None;
    }
    let func = match child_by_field(n, "function") {
        Some(f) => f,
        None => {
            return None;
        },
    };
    if has_kind(func, "identifier") {
        return Some(func.text.clone());
    }
    let inner = match g {
        CallSyntax::Rust => if has_kind(func, "field_expression") {
            child_by_field(func, "field")
        } else if has_kind(func, "scoped_identifier") {
            child_by_field(func, "name")
        } else {
            None
        },
        CallSyntax::Python => if has_kind(func, "attribute") {
            child_by_field(func, "attribute")
        } else {
            None
        },
    };
    match inner {
        Some(x) => Some(x.text.clone()),
        None => None,
    }
}

fn collect_calls(g: CallSyntax, n: &SyntaxNode, acc: &mut Vec<String>)
    requires
        sorted_strict(strings_view(old(acc)@)),
    ensures
        sorted_strict(strings_view(final(acc)@)),
        strings_view(final(acc)@).to_set() == strings_view(old(acc)@).to_set() + calls_in(g, *n),
    decreases n,
{
    let ghost start = strings_view(acc@).to_set();
    let ghost own = match call_name(g, *n) {
        Some(x) => set![x],
        None => Set::<Seq<char>>::empty(),
    };
    match call_name_of(g, n) {
        Some(name) => {
            insert_sorted(acc, name);
        },
        None => {},
    }
    assert(strings_view(acc@).to_set() =~= start + own);
    let ghost cs = n.children@;
    let mut i: usize = 0;
    assert(calls_among(g, cs.take(0)) =~= Set::<Seq<char>>::empty());
    while i < n.children.len()
        invariant
            i <= n.children.len(),
            cs == n.children@,
            sorted_strict(strings_view(acc@)),
            strings_view(acc@).to_set() == start + own + calls_among(g, cs.take(i as int)),
        decreases n.children.len() - i,
    {
        assert(cs.take(i + 1).drop_last() =~= cs.take(i as int));
        assert(cs.take(i + 1).last() == cs[i as int]);
        collect_calls(g, &n.children[i], acc);
        assert(strings_view(acc@).to_set() =~= start + own + calls_among(g, cs.take(i + 1)));
        i += 1;
    }
    assert(cs.take(n.children.len() as int) =~= cs);
    assert(strings_view(acc@).to_set() =~= start + calls_in(g, *n));
}

/// The identifiers called anywhere inside a definition, sorted, each once.
pub fn extract_calls(g: CallSyntax, node: &SyntaxNode) -> (r: Vec<String>)
    ensures
        sorted_strict(strings_view(r@)),
        strings_view(r@).to_set() == calls_in(g, *node),
{
    let mut acc: Vec<String> = Vec::new();
    assert(strings_view(acc@).to_set() =~= Set::<Seq<char>>::empty());
    collect_calls(g, node, &mut acc);
    assert(strings_view(acc@).to_set() =~= calls_in(g, *node));
    acc
}

// ---------------------------------------------------------------------------
// Text spans
// ---------------------------------------------------------------------------

/// The first `n` bytes of `s` (UTF-8), when `n` falls on a character
/// boundary within it.
pub open spec fn byte_prefix(s: Seq<char>, n: nat) -> Option<Seq<char>>
    decreases s.len(),
{
    if n == 0 {
        Some(seq![])
    } else if s.len() == 0 || char_bytes(s[0]) > n {
        None
    } else {
        match byte_prefix(s.drop_first(), (n - char_bytes(s[0])) as nat) {
            Some(p) => Some(seq![s[0]] + p),
            None => None,
        }
    }
}

fn char_width(c: char) -> (r: usize)
    ensures
        r == char_bytes(c),
{
    let u = c as u32;
    if u < 0x80 {
        1
    } else if u < 0x800 {
        2
    } else if u < 0x10000 {
        3
    } else {
        4
    }
}

/// The text of a node up to byte offset `end` of the source: `None` when
/// `end` lies before the node or inside a character.
pub open spec fn text_until(n: SyntaxNode, end: nat) -> Option<Seq<char>> {
    if end < n.start_byte {
        None
    } else {
        byte_prefix(n.text@, (end - n.start_byte) as nat)
    }
}

/// The text of `n` up to byte offset `end` of the source.
pub fn node_text_until(n: &SyntaxNode, end: usize) -> (r: Option<String>)
    ensures
        match r {
            Some(t) => text_until(*n, end as nat) == Some(t@),
            None => text_until(*n, end as nat) is None,
        },
{
    if end < n.start_byte {
        return None;
    }
    let cs = chars_of(n.text.as_str());
    let ghost whole = cs@;
    let mut out: Vec<char> = Vec::new();
    let mut i: usize = 0;
    let mut left: usize = end - n.start_byte;
    assert(whole.skip(0) =~= whole);
    while left > 0
        invariant
            i <= cs.len(),
            whole == cs@,
            whole == n.text@,
            end >= n.start_byte,
            out@ == whole.take(i as int),
            byte_prefix(whole, (end - n.start_byte) as nat) == match byte_prefix(whole.skip(i as int), left as nat) {
                Some(p) => Some(out@ + p),
                None => None,
            },
        decreases left,
    {
        if i >= cs.len() {
            assert(whole.skip(i as int).len() == 0);
            return None;
        }
        let w = char_width(cs[i]);
        if w > left {
            assert(whole.skip(i as int)[0] == cs@[i as int]);
            return None;
        }
        assert(whole.skip(i as int)[0] == cs@[i as int]);
        assert(whole.skip(i as int).drop_first() =~= whole.skip(i + 1));
        assert(whole.take(i + 1) =~= whole.take(i as int).push(cs@[i as int]));
        proof {
            let rest = byte_prefix(whole.skip(i + 1), (left - w) as nat);
            if let Some(p) = rest {
                assert(out@ + (seq![cs@[i as int]] + p) =~= out@.push(cs@[i as int]) + p);
            }
        }
        out.push(cs[i]);
        left = left - w;
        i += 1;
    }
    assert(out@ + seq![] =~= out@);
    Some(string_of(&out))
}

// ---------------------------------------------------------------------------
// Named children
// ---------------------------------------------------------------------------

/// The first child the grammar names (tree-sitter's `named_child(0)`).
pub open spec fn first_named(cs: Seq<SyntaxNode>) -> Option<SyntaxNode>
    decreases cs.len(),
{
    if cs.len() == 0 {
        None
    } else if cs[0].named {
        Some(cs[0])
    } else {
        first_named(cs.drop_first())
    }
}

/// The first named child of `n`.
pub fn first_named_child(n: &SyntaxNode) -> (r: Option<&SyntaxNode>)
    ensures
        match r {
            Some(c) => first_named(n.children@) == Some(*c),
            None => first_named(n.children@) is None,
        },
{
    let ghost cs = n.children@;
    let mut i: usize = 0;
    assert(cs.skip(0) =~= cs);
    while i < n.children.len()
        invariant
            i <= n.children.len(),
            cs == n.children@,
            first_named(cs) == first_named(cs.skip(i as int)),
        decreases n.children.len() - i,
    {
        assert(cs.skip(i as int)[0] == cs[i as int]);
        assert(cs.skip(i as int).drop_first() =~= cs.skip(i + 1));
        if n.children[i].named {
            return Some(&n.children[i]);
        }
        i += 1;
    }
    None
}

/// The first child of one of two kinds.
pub open spec fn first_of_kinds(cs: Seq<SyntaxNode>, a: Seq<char>, b: Seq<char>) -> Option<SyntaxNode>
    decreases cs.len(),
{
    if cs.len() == 0 {
        None
    } else if cs[0].kind@ == a || cs[0].kind@ == b {
        Some(cs[0])
    } else {
        first_of_kinds(cs.drop_first(), a, b)
    }
}

/// The first child of `n` of kind `a` or `b`.
pub fn first_child_of_kinds<'a>(n: &'a SyntaxNode, a: &str, b: &str) -> (r: Option<&'a SyntaxNode>)
    ensures
        match r {
            Some(c) => first_of_kinds(n.children@, a@, b@) == Some(*c),
            None => first_of_kinds(n.children@, a@, b@) is None,
        },
{
    let ghost cs = n.children@;
    let mut i: usize = 0;
    assert(cs.skip(0) =~= cs);
    while i < n.children.len()
        invariant
            i <= n.children.len(),
            cs == n.children@,
            first_of_kinds(cs, a@, b@) == first_of_kinds(cs.skip(i as int), a@, b@),
        decreases n.children.len() - i,
    {
        assert(cs.skip(i as int)[0] == cs[i as int]);
        assert(cs.skip(i as int).drop_first() =~= cs.skip(i + 1));
        if has_kind(&n.children[i], a) || has_kind(&n.children[i], b) {
            return Some(&n.children[i]);
        }
        i += 1;
    }
    None
}

// ---------------------------------------------------------------------------
// Type identifiers and nodes by kind
// ---------------------------------------------------------------------------

pub open spec fn strs_view(s: Seq<&str>) -> Seq<Seq<char>> {
    s.map_values(|x: &str| x@)
}

/// The type names in the subtree of `n`, in source order, each with whether
/// it sits inside a generic-argument node (one of `generic_kinds`, below
/// `n`); `in_generic` says whether `n` itself does.
pub open spec fn type_idents(n: SyntaxNode, ident_kinds: Seq<Seq<char>>, generic_kinds: Seq<Seq<char>>, in_generic: bool) -> Seq<
    (Seq<char>, bool),
>
    decreases n,
{
    let own: Seq<(Seq<char>, bool)> = if ident_kinds.contains(n.kind@) {
        seq![(n.text@, in_generic)]
    } else {
        seq![]
    };
    own + type_idents_among(n.children@, ident_kinds, generic_kinds, in_generic)
}

pub open spec fn type_idents_among(
    cs: Seq<SyntaxNode>,
    ident_kinds: Seq<Seq<char>>,
    generic_kinds: Seq<Seq<char>>,
    in_generic: bool,
) -> Seq<(Seq<char>, bool)>
    decreases cs,
{
    if cs.len() == 0 {
        seq![]
    } else {
        type_idents_among(cs.drop_last(), ident_kinds, generic_kinds, in_generic) + type_idents(
            cs.last(),
            ident_kinds,
            generic_kinds,
            in_generic || generic_kinds.contains(cs.last().kind@),
        )
    }
}

pub open spec fn idents_view(s: Seq<(String, bool)>) -> Seq<(Seq<char>, bool)> {
    s.map_values(|p: (String, bool)| (p.0@, p.1))
}

fn kind_in(n: &SyntaxNode, kinds: &[&str]) -> (r: bool)
    ensures
        r == strs_view(kinds@).contains(n.kind@),
{
    let mut i: usize = 0;
    while i < kinds.len()
        invariant
            i <= kinds.len(),
            forall|j: int| 0 <= j < i ==> strs_view(kinds@)[j] != n.kind@,
        decreases kinds.len() - i,
    {
        if has_kind(n, kinds[i]) {
            assert(strs_view(kinds@)[i as int] == n.kind@);
            return true;
        }
        i += 1;
    }
    false
}

fn collect_type_idents_into(
    n: &SyntaxNode,
    ident_kinds: &[&str],
    generic_kinds: &[&str],
    in_generic: bool,
    out: &mut Vec<(String, bool)>,
)
    ensures
        idents_view(final(out)@) == idents_view(old(out)@) + type_idents(
            *n,
            strs_view(ident_kinds@),
            strs_view(generic_kinds@),
            in_generic,
        ),
    decreases n,
{
    let ghost ik = strs_view(ident_kinds@);
    let ghost gk = strs_view(generic_kinds@);
    let ghost start = idents_view(out@);
    if kind_in(n, ident_kinds) {
        out.push((n.text.clone(), in_generic));
    }
    assert(idents_view(out@) =~= start + (if ik.contains(n.kind@) {
        seq![(n.text@, in_generic)]
    } else {
        seq![]
    }));
    let ghost head = idents_view(out@);
    let ghost cs = n.children@;
    let mut i: usize = 0;
    assert(type_idents_among(cs.take(0), ik, gk, in_generic) =~= Seq::<(Seq<char>, bool)>::empty());
    while i < n.children.len()
        invariant
            i <= n.children.len(),
            cs == n.children@,
            ik == strs_view(ident_kinds@),
            gk == strs_view(generic_kinds@),
            idents_view(out@) == head + type_idents_among(cs.take(i as int), ik, gk, in_generic),
        decreases n.children.len() - i,
    {
        assert(cs.take(i + 1).drop_last() =~= cs.take(i as int));
        assert(cs.take(i + 1).last() == cs[i as int]);
        let child_in_generic = in_generic || kind_in(&n.children[i], generic_kinds);
        collect_type_idents_into(&n.children[i], ident_kinds, generic_kinds, child_in_generic, out);
        assert(idents_view(out@) =~= head + type_idents_among(cs.take(i + 1), ik, gk, in_generic));
        i += 1;
    }
    assert(cs.take(n.children.len() as int) =~= cs);
}

/// The type names a type node mentions, in source order: each node whose
/// kind is one of `ident_kinds` (the node itself included), with whether it
/// lies under a generic-argument node of one of `generic_kinds`. Turns
/// `Vec<CodeChunk>` into `[(Vec, false), (CodeChunk, true)]`.
pub fn collect_type_idents(node: &SyntaxNode, ident_kinds: &[&str], generic_kinds: &[&str]) -> (r: Vec<(String, bool)>)
    ensures
        idents_view(r@) == type_idents(*node, strs_view(ident_kinds@), strs_view(generic_kinds@), false),
{
    let mut out: Vec<(String, bool)> = Vec::new();
    assert(idents_view(out@) =~= Seq::<(Seq<char>, bool)>::empty());
    collect_type_idents_into(node, ident_kinds, generic_kinds, false, &mut out);
    assert(idents_view(out@) =~= type_idents(*node, strs_view(ident_kinds@), strs_view(generic_kinds@), false));
    out
}

/// The descendants of `n` (not `n` itself) whose kind is one of `kinds`,
/// in source order.
pub open spec fn nodes_of_kind(n: SyntaxNode, kinds: Seq<Seq<char>>) -> Seq<SyntaxNode>
    decreases n,
{
    nodes_of_kind_among(n.children@, kinds)
}

pub open spec fn nodes_of_kind_among(cs: Seq<SyntaxNode>, kinds: Seq<Seq<char>>) -> Seq<SyntaxNode>
    decreases cs,
{
    if cs.len() == 0 {
        seq![]
    } else {
        let c = cs.last();
        nodes_of_kind_among(cs.drop_last(), kinds) + (if kinds.contains(c.kind@) {
            seq![c]
        } else {
            seq![]
        }) + nodes_of_kind(c, kinds)
    }
}

pub open spec fn refs_view(s: Seq<&SyntaxNode>) -> Seq<SyntaxNode> {
    s.map_values(|x: &SyntaxNode| *x)
}

fn nodes_of_kind_into<'a>(n: &'a SyntaxNode, kinds: &[&str], out: &mut Vec<&'a SyntaxNode>)
    ensures
        refs_view(final(out)@) == refs_view(old(out)@) + nodes_of_kind(*n, strs_view(kinds@)),
    decreases n,
{
    let ghost ks = strs_view(kinds@);
    let ghost head = refs_view(out@);
    let ghost cs = n.children@;
    let mut i: usize = 0;
    assert(nodes_of_kind_among(cs.take(0), ks) =~= Seq::<SyntaxNode>::empty());
    while i < n.children.len()
        invariant
            i <= n.children.len(),
            cs == n.children@,
            ks == strs_view(kinds@),
            refs_view(out@) == head + nodes_of_kind_among(cs.take(i as int), ks),
        decreases n.children.len() - i,
    {
        assert(cs.take(i + 1).drop_last() =~= cs.take(i as int));
        assert(cs.take(i + 1).last() == cs[i as int]);
        let c = &n.children[i];
        let ghost before = refs_view(out@);
        if kind_in(c, kinds) {
            out.push(c);
        }
        assert(refs_view(out@) =~= before + (if ks.contains(c.kind@) {
            seq![*c]
        } else {
            seq![]
        }));
        nodes_of_kind_into(c, kinds, out);
        assert(refs_view(out@) =~= head + nodes_of_kind_among(cs.take(i + 1), ks));
        i += 1;
    }
    assert(cs.take(n.children.len() as int) =~= cs);
}

/// Every descendant of `node` (the node itself excluded) whose kind is one
/// of `kinds`, in source order; used to find clauses nested under wrapper
/// nodes.
pub fn collect_nodes_by_kind<'a>(node: &'a SyntaxNode, kinds: &[&str]) -> (r: Vec<&'a SyntaxNode>)
    ensures
        refs_view(r@) == nodes_of_kind(*node, strs_view(kinds@)),
{
    let mut out: Vec<&'a SyntaxNode> = Vec::new();
    assert(refs_view(out@) =~= Seq::<SyntaxNode>::empty());
    nodes_of_kind_into(node, kinds, &mut out);
    assert(refs_view(out@) =~= nodes_of_kind(*node, strs_view(kinds@)));
    out
}

} // verus!
