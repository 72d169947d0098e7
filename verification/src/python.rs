//! Python-specific text handling: docstring literals and their
//! indentation, declaration headers, and dotted import names.
use vstd::prelude::*;
use crate::edges::import_list_view;
use crate::language::{ImportInfo, ImportView};
use crate::sorted::sorted_strict;
use crate::strings::{
    SepKind, chars_of, ends_with, ends_with_vec, join, join_vec, lines, lines_vec, rfind_char,
    rfind_char_vec, slice, starts_with, starts_with_vec, string_of, strings_view, trim, trim_start, trim_vec, words,
    words_vec,
};
use crate::syntax::{
    CallSyntax, SyntaxNode, calls_in, child_by_field, extract_calls, field_child, first_named, first_named_child, has_kind,
    node_text_until, parse_python, python_parse, text_until,
};

verus! {

/// The Python language handler.
pub struct PythonHandler;

impl PythonHandler {
    /// Language identifier.
    pub fn name(&self) -> (r: &'static str)
        ensures
            r@ == "python"@,
    {
        "python"
    }

    /// File extensions handled.
    pub fn extensions(&self) -> (r: Vec<&'static str>)
        ensures
            r@.len() == 1 && r@[0]@ == "py"@,
    {
        let mut v: Vec<&'static str> = Vec::new();
        v.push("py");
        v
    }
}

/// Leading whitespace width of a line, in characters.
pub open spec fn indent_of(l: Seq<char>) -> nat {
    (l.len() - trim_start(l).len()) as nat
}

/// Smallest indentation among the non-blank lines, if any.
pub open spec fn min_indent_opt(ls: Seq<Seq<char>>) -> Option<nat>
    decreases ls.len(),
{
    if ls.len() == 0 {
        None
    } else {
        let r = min_indent_opt(ls.drop_first());
        if trim(ls[0]).len() == 0 {
            r
        } else {
            match r {
                None => Some(indent_of(ls[0])),
                Some(m) => Some(if indent_of(ls[0]) < m { indent_of(ls[0]) } else { m }),
            }
        }
    }
}

/// Smallest indentation among the non-blank lines; zero when all are blank.
pub open spec fn min_indent(ls: Seq<Seq<char>>) -> nat {
    match min_indent_opt(ls) {
        Some(m) => m,
        None => 0,
    }
}

/// One continuation line after dedenting: blank lines become empty, others
/// lose `k` leading characters (or are trimmed when shorter).
pub open spec fn dedent_line(l: Seq<char>, k: nat) -> Seq<char> {
    if trim(l).len() == 0 {
        seq![]
    } else if l.len() >= k {
        l.skip(k as int)
    } else {
        trim(l)
    }
}

/// `s` without its trailing empty strings.
pub open spec fn drop_trailing_empty(s: Seq<Seq<char>>) -> Seq<Seq<char>>
    decreases s.len(),
{
    if s.len() > 0 && s.last().len() == 0 {
        drop_trailing_empty(s.drop_last())
    } else {
        s
    }
}

/// Docstring dedent: the first line trimmed (dropped when blank), the other
/// lines with their common indentation removed, trailing blank lines
/// dropped, joined by newlines. Indentation is counted in characters.
pub open spec fn dedent_spec(content: Seq<char>) -> Seq<char> {
    let ls = lines(content);
    if ls.len() == 0 {
        seq![]
    } else if ls.len() == 1 {
        trim(ls[0])
    } else {
        let first = trim(ls[0]);
        let rest = ls.drop_first();
        let k = min_indent(rest);
        let head: Seq<Seq<char>> = if first.len() > 0 {
            seq![first]
        } else {
            seq![]
        };
        join(drop_trailing_empty(head + rest.map_values(|l: Seq<char>| dedent_line(l, k))), "\n"@)
    }
}

fn is_blank(l: &Vec<char>) -> (r: bool)
    ensures
        r == (trim(l@).len() == 0),
{
    trim_vec(l).len() == 0
}

fn indent_vec(l: &Vec<char>) -> (r: usize)
    ensures
        r == indent_of(l@),
{
    let mut a: usize = 0;
    assert(l@.skip(0) == l@);
    while a < l.len() && crate::unicode::is_whitespace(l[a])
        invariant
            a <= l.len(),
            trim_start(l@) == trim_start(l@.skip(a as int)),
        decreases l.len() - a,
    {
        assert(l@.skip(a as int).drop_first() == l@.skip(a + 1));
        a += 1;
    }
    proof {
        if a == l.len() {
            assert(l@.skip(a as int).len() == 0);
        }
        assert(trim_start(l@) == l@.skip(a as int));
    }
    a
}

fn min_indent_vec(ls: &Vec<Vec<char>>, from: usize) -> (r: Option<usize>)
    requires
        from <= ls.len(),
    ensures
        match r {
            Some(m) => min_indent_opt(ls@.map_values(|w: Vec<char>| w@).skip(from as int)) == Some(m as nat),
            None => min_indent_opt(ls@.map_values(|w: Vec<char>| w@).skip(from as int)) is None,
        },
    decreases ls.len() - from,
{
    let ghost all = ls@.map_values(|w: Vec<char>| w@);
    let ghost s = all.skip(from as int);
    if from == ls.len() {
        assert(s.len() == 0);
        return None;
    }
    assert(s.drop_first() =~= all.skip(from + 1));
    assert(s[0] == ls@[from as int]@);
    let rest = min_indent_vec(ls, from + 1);
    if is_blank(&ls[from]) {
        rest
    } else {
        let own = indent_vec(&ls[from]);
        match rest {
            None => Some(own),
            Some(m) => Some(if own < m { own } else { m }),
        }
    }
}

/// Remove common leading whitespace from a multi-line docstring.
pub fn dedent_docstring(content: &str) -> (r: String)
    ensures
        r@ == dedent_spec(content@),
{
    let ls = lines_vec(&chars_of(content));
    let ghost lv = ls@.map_values(|w: Vec<char>| w@);
    if ls.len() == 0 {
        return String::new();
    }
    let first = trim_vec(&ls[0]);
    if ls.len() == 1 {
        return string_of(&first);
    }
    let k = match min_indent_vec(&ls, 1) {
        Some(m) => m,
        None => 0,
    };
    assert(lv.skip(1) =~= lv.drop_first());
    let ghost rest = lv.drop_first();
    let mut result: Vec<Vec<char>> = Vec::new();
    if first.len() > 0 {
        result.push(first);
    }
    let ghost head: Seq<Seq<char>> = result@.map_values(|w: Vec<char>| w@);
    assert(head =~= (if trim(lv[0]).len() > 0 {
        seq![trim(lv[0])]
    } else {
        Seq::<Seq<char>>::empty()
    }));
    let mut i: usize = 1;
    while i < ls.len()
        invariant
            1 <= i <= ls.len(),
            lv == ls@.map_values(|w: Vec<char>| w@),
            rest == lv.drop_first(),
            k == min_indent(rest),
            result@.map_values(|w: Vec<char>| w@) == head + rest.take(i - 1).map_values(
                |l: Seq<char>| dedent_line(l, k as nat),
            ),
        decreases ls.len() - i,
    {
        let line = &ls[i];
        let piece = if is_blank(line) {
            Vec::new()
        } else if line.len() >= k {
            slice(line, k, line.len())
        } else {
            trim_vec(line)
        };
        assert(piece@ == dedent_line(lv[i as int], k as nat));
        let ghost before = result@.map_values(|w: Vec<char>| w@);
        result.push(piece);
        assert(result@.map_values(|w: Vec<char>| w@) =~= before.push(dedent_line(lv[i as int], k as nat)));
        assert(rest.take(i as int).map_values(|l: Seq<char>| dedent_line(l, k as nat)) =~= rest.take(
            i - 1,
        ).map_values(|l: Seq<char>| dedent_line(l, k as nat)).push(dedent_line(lv[i as int], k as nat)));
        i += 1;
    }
    assert(rest.take(ls.len() - 1) =~= rest);
    let ghost full = result@.map_values(|w: Vec<char>| w@);
    assert(full == head + rest.map_values(|l: Seq<char>| dedent_line(l, k as nat)));
    assert(lv == lines(content@));
    while result.len() > 0 && result[result.len() - 1].len() == 0
        invariant
            drop_trailing_empty(full) == drop_trailing_empty(result@.map_values(|w: Vec<char>| w@)),
        decreases result.len(),
    {
        let ghost before = result@.map_values(|w: Vec<char>| w@);
        result.pop();
        assert(result@.map_values(|w: Vec<char>| w@) =~= before.drop_last());
    }
    assert(drop_trailing_empty(result@.map_values(|w: Vec<char>| w@)) == result@.map_values(|w: Vec<char>| w@));
    string_of(&join_vec(&result, &chars_of("\n")))
}

/// Both ends carry the same triple quote.
pub open spec fn triple_quoted(t: Seq<char>) -> bool {
    (starts_with(t, "\"\"\""@) && ends_with(t, "\"\"\""@)) || (starts_with(t, "'''"@) && ends_with(t, "'''"@))
}

/// The docstring of a Python string literal: quotes stripped (triple
/// quotes first, else single quotes of either kind), dedented; `None` for
/// anything else or an empty result.
pub open spec fn python_docstring(raw: Seq<char>) -> Option<Seq<char>> {
    let t = trim(raw);
    let content: Option<Seq<char>> = if triple_quoted(t) {
        Some(t.subrange(3, t.len() - 3))
    } else if ((starts_with(t, "\""@) && ends_with(t, "\""@)) || (starts_with(t, "'"@) && ends_with(t, "'"@)))
        && t.len() >= 2 {
        Some(t.subrange(1, t.len() - 1))
    } else {
        None
    };
    match content {
        Some(c) => {
            let cleaned = dedent_spec(c);
            if cleaned.len() == 0 {
                None
            } else {
                Some(cleaned)
            }
        },
        None => None,
    }
}

/// Parse a Python string literal into clean docstring text. A literal whose
/// opening and closing triple quotes overlap is refused: it has no content
/// between them.
pub fn parse_python_docstring(raw: &str) -> (r: Option<String>)
    requires
        triple_quoted(trim(raw@)) ==> trim(raw@).len() >= 6,
    ensures
        match r {
            Some(d) => python_docstring(raw@) == Some(d@),
            None => python_docstring(raw@) is None,
        },
{
    let t = trim_vec(&chars_of(raw));
    let tq = chars_of("\"\"\"");
    let ts = chars_of("'''");
    let dq = chars_of("\"");
    let sq = chars_of("'");
    let content = if (starts_with_vec(&t, &tq) && ends_with_vec(&t, &tq)) || (starts_with_vec(&t, &ts)
        && ends_with_vec(&t, &ts)) {
        slice(&t, 3, t.len() - 3)
    } else if ((starts_with_vec(&t, &dq) && ends_with_vec(&t, &dq)) || (starts_with_vec(&t, &sq)
        && ends_with_vec(&t, &sq))) && t.len() >= 2 {
        slice(&t, 1, t.len() - 1)
    } else {
        return None;
    };
    let cleaned = dedent_docstring(string_of(&content).as_str());
    if chars_of(cleaned.as_str()).len() == 0 {
        None
    } else {
        Some(cleaned)
    }
}

/// A declaration header as signature: whitespace runs collapsed to single
/// spaces, trailing colons dropped, then trimmed; `None` when nothing is
/// left.
pub open spec fn python_signature(header: Seq<char>) -> Option<Seq<char>> {
    let collapsed = join(words(header, SepKind::Whitespace), " "@);
    let sig = trim(strip_trailing(collapsed, ':'));
    if sig.len() == 0 {
        None
    } else {
        Some(sig)
    }
}

/// `s` without any trailing `c`.
pub open spec fn strip_trailing(s: Seq<char>, c: char) -> Seq<char>
    decreases s.len(),
{
    if s.len() > 0 && s.last() == c {
        strip_trailing(s.drop_last(), c)
    } else {
        s
    }
}

/// The signature of a function or class from the text between the start of
/// its definition and its body.
pub fn python_signature_of(header: &str) -> (r: Option<String>)
    ensures
        match r {
            Some(s) => python_signature(header@) == Some(s@),
            None => python_signature(header@) is None,
        },
{
    let ws = words_vec(&chars_of(header), SepKind::Whitespace);
    let mut collapsed = join_vec(&ws, &chars_of(" "));
    let ghost full = collapsed@;
    while collapsed.len() > 0 && collapsed[collapsed.len() - 1] == ':'
        invariant
            strip_trailing(full, ':') == strip_trailing(collapsed@, ':'),
        decreases collapsed.len(),
    {
        let ghost before = collapsed@;
        collapsed.pop();
        assert(collapsed@ =~= before.drop_last());
    }
    let sig = trim_vec(&collapsed);
    if sig.len() == 0 {
        None
    } else {
        Some(string_of(&sig))
    }
}

/// The last segment of a dotted name (`bar` of `foo.bar`).
pub open spec fn last_dotted(name: Seq<char>) -> Seq<char> {
    match rfind_char(name, '.') {
        Some(i) => name.skip(i + 1),
        None => name,
    }
}

/// The imported name of a `from m import a.b` item: its last dotted
/// segment.
pub fn last_dotted_segment(name: &str) -> (r: String)
    ensures
        r@ == last_dotted(name@),
{
    let n = chars_of(name);
    match rfind_char_vec(&n, '.') {
        Some(i) => string_of(&slice(&n, i + 1, n.len())),
        None => name.to_string(),
    }
}

// ---------------------------------------------------------------------------
// Reading definitions off the syntax tree
// ---------------------------------------------------------------------------

/// The string literal that documents a definition: the first statement of
/// its body, when that is an expression statement whose first named child
/// is a string.
pub open spec fn doc_literal(n: SyntaxNode) -> Option<Seq<char>> {
    match field_child(n.children@, "body"@) {
        None => None,
        Some(body) => match first_named(body.children@) {
            None => None,
            Some(st) => if st.kind@ != "expression_statement"@ {
                None
            } else {
                match first_named(st.children@) {
                    Some(e) => if e.kind@ == "string"@ {
                        Some(e.text@)
                    } else {
                        None
                    },
                    None => None,
                }
            },
        },
    }
}

/// The literal can be stripped of its quotes: triple quotes at both ends
/// do not overlap.
pub open spec fn literal_strippable(raw: Seq<char>) -> bool {
    triple_quoted(trim(raw)) ==> trim(raw).len() >= 6
}

/// The signature of a function or class definition: its text before the
/// body, as `python_signature` cleans it.
pub open spec fn python_node_signature(n: SyntaxNode) -> Option<Seq<char>> {
    if n.kind@ == "function_definition"@ || n.kind@ == "class_definition"@ {
        match field_child(n.children@, "body"@) {
            Some(b) => match text_until(n, b.start_byte as nat) {
                Some(h) => python_signature(h),
                None => None,
            },
            None => None,
        }
    } else {
        None
    }
}

/// Imports of one `from m import a, b.c` statement: each imported name or
/// dotted name after the module (its last segment) from module `m`.
pub open spec fn from_import_names(cs: Seq<SyntaxNode>, module: Seq<char>, module_end: nat) -> Seq<ImportView>
    decreases cs.len(),
{
    if cs.len() == 0 {
        seq![]
    } else {
        let c = cs.last();
        from_import_names(cs.drop_last(), module, module_end) + if (c.kind@ == "dotted_name"@ || c.kind@ == "identifier"@)
            && c.start_byte > module_end {
            seq![ImportView { imported_name: last_dotted(c.text@), source_path: module, is_reexport: false }]
        } else {
            seq![]
        }
    }
}

pub open spec fn from_statement_imports(st: SyntaxNode) -> Seq<ImportView> {
    let m = field_child(st.children@, "module_name"@);
    let module = match m {
        Some(x) => x.text@,
        None => seq![],
    };
    let module_end: nat = match m {
        Some(x) => x.end_byte as nat,
        None => 0,
    };
    from_import_names(st.children@, module, module_end)
}

/// Imports of the top-level `from … import …` statements, in source order.
pub open spec fn python_file_imports(cs: Seq<SyntaxNode>) -> Seq<ImportView>
    decreases cs.len(),
{
    if cs.len() == 0 {
        seq![]
    } else {
        python_file_imports(cs.drop_last()) + if cs.last().kind@ == "import_from_statement"@ {
            from_statement_imports(cs.last())
        } else {
            seq![]
        }
    }
}

fn push_from_imports(st: &SyntaxNode, out: &mut Vec<ImportInfo>)
    ensures
        import_list_view(final(out)@) == import_list_view(old(out)@) + from_statement_imports(*st),
{
    let m = child_by_field(st, "module_name");
    let module: &str = match m {
        Some(x) => x.text.as_str(),
        None => "",
    };
    let module_end: usize = match m {
        Some(x) => x.end_byte,
        None => 0,
    };
    proof {
        reveal_strlit("");
        assert(""@ =~= Seq::<char>::empty());
    }
    assert(module@ == match field_child(st.children@, "module_name"@) {
        Some(x) => x.text@,
        None => seq![],
    });
    assert(module_end as nat == match field_child(st.children@, "module_name"@) {
        Some(x) => x.end_byte as nat,
        None => 0nat,
    });
    let ghost head = import_list_view(out@);
    let ghost cs = st.children@;
    let mut i: usize = 0;
    assert(from_import_names(cs.take(0), module@, module_end as nat) =~= Seq::<ImportView>::empty());
    while i < st.children.len()
        invariant
            i <= st.children.len(),
            cs == st.children@,
            import_list_view(out@) == head + from_import_names(cs.take(i as int), module@, module_end as nat),
        decreases st.children.len() - i,
    {
        assert(cs.take(i + 1).drop_last() =~= cs.take(i as int));
        assert(cs.take(i + 1).last() == cs[i as int]);
        let c = &st.children[i];
        let ghost before = import_list_view(out@);
        if (has_kind(c, "dotted_name") || has_kind(c, "identifier")) && c.start_byte > module_end {
            let name = last_dotted_segment(c.text.as_str());
            out.push(ImportInfo::import(name.as_str(), module));
            assert(import_list_view(out@) =~= before.push(
                ImportView { imported_name: last_dotted(c.text@), source_path: module@, is_reexport: false },
            ));
        }
        assert(import_list_view(out@) =~= head + from_import_names(cs.take(i + 1), module@, module_end as nat));
        i += 1;
    }
    assert(cs.take(st.children.len() as int) =~= cs);
}

impl PythonHandler {
    /// Parse Python source with this handler's grammar.
    pub fn parse(&self, source: &str) -> (r: Option<SyntaxNode>)
        ensures
            r == python_parse(source@),
    {
        parse_python(source)
    }

    /// The string literal holding a definition's docstring, if it has one.
    pub fn docstring_literal(&self, node: &SyntaxNode) -> (r: Option<String>)
        ensures
            match r {
                Some(t) => doc_literal(*node) == Some(t@),
                None => doc_literal(*node) is None,
            },
    {
        let body = match child_by_field(node, "body") {
            Some(b) => b,
            None => {
                return None;
            },
        };
        let st = match first_named_child(body) {
            Some(s) => s,
            None => {
                return None;
            },
        };
        if !has_kind(st, "expression_statement") {
            return None;
        }
        match first_named_child(st) {
            Some(e) => if has_kind(e, "string") {
                Some(e.text.clone())
            } else {
                None
            },
            None => None,
        }
    }

    /// The docstring of a definition: the first statement of its body,
    /// when that is a string literal, cleaned by `parse_python_docstring`.
    pub fn extract_docstring(&self, node: &SyntaxNode) -> (r: Option<String>)
        requires
            doc_literal(*node) matches Some(t) ==> literal_strippable(t),
        ensures
            match doc_literal(*node) {
                Some(t) => match r {
                    Some(d) => python_docstring(t) == Some(d@),
                    None => python_docstring(t) is None,
                },
                None => r is None,
            },
    {
        match self.docstring_literal(node) {
            Some(raw) => parse_python_docstring(raw.as_str()),
            None => None,
        }
    }

    /// The identifiers called inside a definition (direct and attribute
    /// calls), sorted, each once.
    pub fn extract_calls(&self, node: &SyntaxNode) -> (r: Vec<String>)
        ensures
            sorted_strict(strings_view(r@)),
            strings_view(r@).to_set() == calls_in(CallSyntax::Python, *node),
    {
        extract_calls(CallSyntax::Python, node)
    }

    /// The declaration signature of a function or class: its text before
    /// the body, whitespace collapsed and trailing colons dropped. Where
    /// the body's start would not fall inside the definition's text on a
    /// character boundary (which a parse never gives) the result is `None`.
    pub fn extract_signature(&self, node: &SyntaxNode) -> (r: Option<String>)
        ensures
            match r {
                Some(s) => python_node_signature(*node) == Some(s@),
                None => python_node_signature(*node) is None,
            },
    {
        if !(has_kind(node, "function_definition") || has_kind(node, "class_definition")) {
            return None;
        }
        match child_by_field(node, "body") {
            Some(b) => match node_text_until(node, b.start_byte) {
                Some(h) => python_signature_of(h.as_str()),
                None => None,
            },
            None => None,
        }
    }

    /// The names imported by the file's top-level `from … import …`
    /// statements, in source order, each with its module.
    pub fn extract_file_imports(&self, root: &SyntaxNode) -> (r: Vec<ImportInfo>)
        ensures
            import_list_view(r@) == python_file_imports(root.children@),
    {
        let mut out: Vec<ImportInfo> = Vec::new();
        let ghost cs = root.children@;
        let mut i: usize = 0;
        assert(python_file_imports(cs.take(0)) =~= Seq::<ImportView>::empty());
        assert(import_list_view(out@) =~= Seq::<ImportView>::empty());
        while i < root.children.len()
            invariant
                i <= root.children.len(),
                cs == root.children@,
                import_list_view(out@) == python_file_imports(cs.take(i as int)),
            decreases root.children.len() - i,
        {
            assert(cs.take(i + 1).drop_last() =~= cs.take(i as int));
            assert(cs.take(i + 1).last() == cs[i as int]);
            if has_kind(&root.children[i], "import_from_statement") {
                push_from_imports(&root.children[i], &mut out);
            }
            assert(import_list_view(out@) =~= python_file_imports(cs.take(i + 1)));
            i += 1;
        }
        assert(cs.take(root.children.len() as int) =~= cs);
        out
    }
}

} // verus!
