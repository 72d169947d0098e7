//! Rust-specific text handling: outer doc comments above a definition,
//! declaration signatures, and `use` paths.
use vstd::prelude::*;
use crate::edges::import_list_view;
use crate::language::{ImportInfo, ImportView};
use crate::sorted::sorted_strict;
use crate::syntax::{
    CallSyntax, SyntaxNode, calls_in, child_by_field, extract_calls, field_child, first_child_of_kinds, first_of_kinds, has_kind,
    node_text_until, parse_rust, rust_parse, text_until,
};
use crate::strings::{
    SepKind, chars_of, contains, extend, extend_str, find, find_vec, join, join_vec, lines, lines_vec,
    matches_at, occurs_at, rfind_char, rfind_char_vec, slice, split_on, split_on_vec, starts_with,
    starts_with_vec, string_of, strings_view, trim, trim_vec, words, words_vec,
};

verus! {

/// The Rust language handler.
pub struct RustHandler;

impl RustHandler {
    /// Language identifier.
    pub fn name(&self) -> (r: &'static str)
        ensures
            r@ == "rust"@,
    {
        "rust"
    }

    /// File extensions handled.
    pub fn extensions(&self) -> (r: Vec<&'static str>)
        ensures
            r@.len() == 1 && r@[0]@ == "rs"@,
    {
        let mut v: Vec<&'static str> = Vec::new();
        v.push("rs");
        v
    }
}

// ---------------------------------------------------------------------------
// Outer doc comments
// ---------------------------------------------------------------------------

/// Text of a `///` line: after the marker, minus one following space.
pub open spec fn doc_line_content(line: Seq<char>) -> Seq<char> {
    let rest = line.skip(3);
    if starts_with(rest, " "@) {
        rest.skip(1)
    } else {
        rest
    }
}

/// Text between the first and the last `"` of a `#[doc = "…"]` line.
pub open spec fn doc_attr_content(line: Seq<char>) -> Option<Seq<char>> {
    match find(line, seq!['"']) {
        Some(s) => match rfind_char(line, '"') {
            Some(e) => if e > s {
                Some(line.subrange(s + 1, e))
            } else {
                None
            },
            None => None,
        },
        None => None,
    }
}

/// Scan upward from row `i`, collecting (nearest first) doc lines; other
/// attributes are passed over, a blank line counts once a doc line was
/// seen, and any other line ends the scan.
pub open spec fn doc_scan(ls: Seq<Seq<char>>, i: nat, acc: Seq<Seq<char>>) -> Seq<Seq<char>>
    decreases i,
{
    let line = trim(
        if i < ls.len() {
            ls[i as int]
        } else {
            seq![]
        },
    );
    let stop = !starts_with(line, "///"@) && !starts_with(line, "#["@) && line.len() != 0;
    let next = if starts_with(line, "///"@) {
        acc.push(doc_line_content(line))
    } else if starts_with(line, "#[doc"@) {
        match doc_attr_content(line) {
            Some(c) => acc.push(c),
            None => acc,
        }
    } else if starts_with(line, "#["@) {
        acc
    } else if acc.len() > 0 {
        acc.push(seq![])
    } else {
        acc
    };
    if stop {
        acc
    } else if i == 0 {
        next
    } else {
        doc_scan(ls, (i - 1) as nat, next)
    }
}

pub open spec fn drop_trailing_blank(s: Seq<Seq<char>>) -> Seq<Seq<char>>
    decreases s.len(),
{
    if s.len() > 0 && s.last().len() == 0 {
        drop_trailing_blank(s.drop_last())
    } else {
        s
    }
}

pub open spec fn drop_leading_blank(s: Seq<Seq<char>>) -> Seq<Seq<char>>
    decreases s.len(),
{
    if s.len() > 0 && s[0].len() == 0 {
        drop_leading_blank(s.drop_first())
    } else {
        s
    }
}

/// The outer documentation of the definition starting at `row` (0-based):
/// the `///` lines and `#[doc = "…"]` attributes directly above it, in
/// source order, without leading or trailing blank lines, joined by
/// newlines; `None` when there is none.
pub open spec fn rust_doc(source: Seq<char>, row: nat) -> Option<Seq<char>> {
    if row == 0 {
        None
    } else {
        let collected = doc_scan(lines(source), (row - 1) as nat, seq![]);
        let ordered = drop_leading_blank(drop_trailing_blank(collected.reverse()));
        if ordered.len() == 0 {
            None
        } else {
            Some(join(ordered, "\n"@))
        }
    }
}

fn doc_attr_content_vec(line: &Vec<char>) -> (r: Option<Vec<char>>)
    ensures
        match r {
            Some(c) => doc_attr_content(line@) == Some(c@),
            None => doc_attr_content(line@) is None,
        },
{
    let mut q: Vec<char> = Vec::new();
    q.push('"');
    assert(q@ =~= seq!['"']);
    match find_vec(line, &q) {
        Some(s) => match rfind_char_vec(line, '"') {
            Some(e) => {
                if e > s {
                    Some(slice(line, s + 1, e))
                } else {
                    None
                }
            },
            None => None,
        },
        None => None,
    }
}

/// The outer documentation of the definition whose first line is row
/// `start_row` of `source`.
pub fn rust_docstring(source: &str, start_row: usize) -> (r: Option<String>)
    ensures
        match r {
            Some(d) => rust_doc(source@, start_row as nat) == Some(d@),
            None => rust_doc(source@, start_row as nat) is None,
        },
{
    if start_row == 0 {
        return None;
    }
    let ls = lines_vec(&chars_of(source));
    let ghost lv = ls@.map_values(|w: Vec<char>| w@);
    let triple = chars_of("///");
    let doc_attr = chars_of("#[doc");
    let attr = chars_of("#[");
    let mut acc: Vec<Vec<char>> = Vec::new();
    let mut i = start_row - 1;
    let mut done = false;
    proof {
        reveal_strlit("///");
        reveal_strlit(" ");
        assert(acc@.map_values(|w: Vec<char>| w@) =~= Seq::<Seq<char>>::empty());
    }
    while !done
        invariant
            lv == ls@.map_values(|w: Vec<char>| w@),
            lv == lines(source@),
            triple@ == "///"@,
            doc_attr@ == "#[doc"@,
            attr@ == "#["@,
            doc_scan(lv, (start_row - 1) as nat, seq![]) == if done {
                acc@.map_values(|w: Vec<char>| w@)
            } else {
                doc_scan(lv, i as nat, acc@.map_values(|w: Vec<char>| w@))
            },
        decreases i + (if done { 0int } else { 1int }),
    {
        proof {
            reveal_strlit("///");
            reveal_strlit(" ");
        }
        let ghost av = acc@.map_values(|w: Vec<char>| w@);
        let line = if i < ls.len() {
            trim_vec(&ls[i])
        } else {
            Vec::new()
        };
        assert(line@ == trim(if i < lv.len() { lv[i as int] } else { seq![] }));
        let is_doc = starts_with_vec(&line, &triple);
        let is_attr = starts_with_vec(&line, &attr);
        if !is_doc && !is_attr && line.len() != 0 {
            done = true;
        } else {
            if is_doc {
                let rest = slice(&line, 3, line.len());
                let content = if rest.len() > 0 && rest[0] == ' ' {
                    slice(&rest, 1, rest.len())
                } else {
                    rest
                };
                proof {
                    assert(rest@ == line@.skip(3));
                    if rest@.len() > 0 && rest@[0] == ' ' {
                        assert(rest@.take(1) =~= " "@);
                    } else {
                        assert(!starts_with(rest@, " "@)) by {
                            if starts_with(rest@, " "@) {
                                assert(rest@.take(1)[0] == ' ');
                            }
                        }
                    }
                    assert(content@ == doc_line_content(line@));
                }
                acc.push(content);
            } else if starts_with_vec(&line, &doc_attr) {
                match doc_attr_content_vec(&line) {
                    Some(c) => acc.push(c),
                    None => {},
                }
            } else if is_attr {
            } else if acc.len() > 0 {
                acc.push(Vec::new());
            }
            proof {
                let nv = acc@.map_values(|w: Vec<char>| w@);
                if is_doc {
                    assert(nv =~= av.push(doc_line_content(line@)));
                } else if starts_with(line@, "#[doc"@) {
                    match doc_attr_content(line@) {
                        Some(c) => assert(nv =~= av.push(c)),
                        None => assert(nv =~= av),
                    }
                } else if is_attr {
                    assert(nv =~= av);
                } else if av.len() > 0 {
                    assert(nv =~= av.push(Seq::<char>::empty()));
                } else {
                    assert(nv =~= av);
                }
            }
            if i == 0 {
                done = true;
            } else {
                i -= 1;
            }
        }
    }
    let ghost collected = acc@.map_values(|w: Vec<char>| w@);
    let mut rev: Vec<Vec<char>> = Vec::new();
    let mut j = acc.len();
    while j > 0
        invariant
            j <= acc.len(),
            collected == acc@.map_values(|w: Vec<char>| w@),
            rev@.map_values(|w: Vec<char>| w@) == collected.reverse().take(acc.len() - j),
        decreases j,
    {
        let ghost before = rev@.map_values(|w: Vec<char>| w@);
        rev.push(acc[j - 1].clone());
        assert(rev@.map_values(|w: Vec<char>| w@) =~= before.push(collected[j - 1]));
        assert(collected.reverse().take(acc.len() - j + 1) =~= collected.reverse().take(acc.len() - j).push(
            collected[j - 1],
        ));
        j -= 1;
    }
    assert(collected.reverse().take(acc.len() as int) =~= collected.reverse());
    let ghost reversed = rev@.map_values(|w: Vec<char>| w@);
    while rev.len() > 0 && rev[rev.len() - 1].len() == 0
        invariant
            drop_trailing_blank(reversed) == drop_trailing_blank(rev@.map_values(|w: Vec<char>| w@)),
        decreases rev.len(),
    {
        let ghost before = rev@.map_values(|w: Vec<char>| w@);
        rev.pop();
        assert(rev@.map_values(|w: Vec<char>| w@) =~= before.drop_last());
    }
    let ghost trimmed = rev@.map_values(|w: Vec<char>| w@);
    assert(drop_trailing_blank(trimmed) == trimmed);
    let mut k: usize = 0;
    assert(trimmed.skip(0) =~= trimmed);
    while k < rev.len() && rev[k].len() == 0
        invariant
            k <= rev.len(),
            trimmed == rev@.map_values(|w: Vec<char>| w@),
            drop_leading_blank(trimmed) == drop_leading_blank(trimmed.skip(k as int)),
        decreases rev.len() - k,
    {
        assert(trimmed.skip(k as int).drop_first() =~= trimmed.skip(k + 1));
        k += 1;
    }
    let mut out: Vec<Vec<char>> = Vec::new();
    let mut m = k;
    while m < rev.len()
        invariant
            k <= m <= rev.len(),
            trimmed == rev@.map_values(|w: Vec<char>| w@),
            out@.map_values(|w: Vec<char>| w@) == trimmed.subrange(k as int, m as int),
        decreases rev.len() - m,
    {
        let ghost before = out@.map_values(|w: Vec<char>| w@);
        out.push(rev[m].clone());
        assert(out@.map_values(|w: Vec<char>| w@) =~= before.push(trimmed[m as int]));
        assert(trimmed.subrange(k as int, m + 1) =~= trimmed.subrange(k as int, m as int).push(trimmed[m as int]));
        m += 1;
    }
    proof {
        let sk = trimmed.skip(k as int);
        assert(trimmed.subrange(k as int, rev.len() as int) =~= sk);
        if sk.len() > 0 {
            assert(sk[0] == trimmed[k as int]);
        }
        assert(drop_leading_blank(sk) == sk);
    }
    if out.len() == 0 {
        None
    } else {
        Some(string_of(&join_vec(&out, &chars_of("\n"))))
    }
}

// ---------------------------------------------------------------------------
// Signatures and `use` paths
// ---------------------------------------------------------------------------

/// A declaration header with whitespace runs collapsed to single spaces;
/// `None` when it is blank.
pub open spec fn collapsed_signature(header: Seq<char>) -> Option<Seq<char>> {
    let sig = join(words(header, SepKind::Whitespace), " "@);
    if sig.len() == 0 {
        None
    } else {
        Some(sig)
    }
}

/// The signature of an item from the text between its start and its body.
pub fn rust_signature_of(header: &str) -> (r: Option<String>)
    ensures
        match r {
            Some(s) => collapsed_signature(header@) == Some(s@),
            None => collapsed_signature(header@) is None,
        },
{
    let ws = words_vec(&chars_of(header), SepKind::Whitespace);
    let sig = join_vec(&ws, &chars_of(" "));
    if sig.len() == 0 {
        None
    } else {
        Some(string_of(&sig))
    }
}

/// Rightmost occurrence of `p` in `s` at or before `i`.
pub open spec fn rfind_from(s: Seq<char>, p: Seq<char>, i: int) -> Option<int>
    decreases i + 1,
{
    if i < 0 {
        None
    } else if occurs_at(s, p, i) {
        Some(i)
    } else {
        rfind_from(s, p, i - 1)
    }
}

/// `s` split at the last `::`: (path, name).
pub open spec fn rsplit_path(s: Seq<char>) -> Option<(Seq<char>, Seq<char>)> {
    match rfind_from(s, "::"@, s.len() - 2) {
        Some(i) => Some((s.take(i), s.skip(i + 2))),
        None => None,
    }
}

proof fn lemma_rfind_from(s: Seq<char>, p: Seq<char>, i: int)
    ensures
        rfind_from(s, p, i) matches Some(j) ==> 0 <= j <= i && occurs_at(s, p, j),
    decreases i + 1,
{
    if i >= 0 && !occurs_at(s, p, i) {
        lemma_rfind_from(s, p, i - 1);
    }
}

fn rsplit_path_vec(s: &Vec<char>) -> (r: Option<(Vec<char>, Vec<char>)>)
    ensures
        match r {
            Some((a, b)) => rsplit_path(s@) == Some((a@, b@)),
            None => rsplit_path(s@) is None,
        },
{
    let sep = chars_of("::");
    if s.len() < 2 {
        assert(rfind_from(s@, "::"@, s.len() - 2) is None);
        return None;
    }
    let mut i: usize = s.len() - 2;
    loop
        invariant
            i + 2 <= s.len(),
            sep@ == "::"@,
            rfind_from(s@, "::"@, s.len() - 2) == rfind_from(s@, "::"@, i as int),
        decreases i,
    {
        if matches_at(s, &sep, i) {
            proof {
                lemma_rfind_from(s@, "::"@, i as int);
            }
            return Some((slice(s, 0, i), slice(s, i + 2, s.len())));
        }
        if i == 0 {
            assert(rfind_from(s@, "::"@, -1) is None);
            return None;
        }
        i -= 1;
    }
}

/// The text before the first ` as `, trimmed.
pub open spec fn before_alias(text: Seq<char>) -> Seq<char> {
    trim(split_on(text, " as "@)[0])
}

fn before_alias_vec(text: &Vec<char>) -> (r: Vec<char>)
    ensures
        r@ == before_alias(text@),
{
    let pieces = split_on_vec(text, &chars_of(" as "));
    proof {
        crate::strings::lemma_split_on_nonempty(text@, " as "@);
    }
    assert(pieces@.map_values(|w: Vec<char>| w@)[0] == pieces@[0]@);
    trim_vec(&pieces[0])
}

/// A simple `use a::b::c` path (alias dropped) as the import of `c` from
/// `a::b`; `None` without a `::`.
pub fn use_path_import(text: &str) -> (r: Option<ImportInfo>)
    ensures
        match r {
            Some(imp) => rsplit_path(before_alias(text@)) matches Some((p, n)) && imp@ == (ImportView {
                imported_name: n,
                source_path: p,
                is_reexport: false,
            }),
            None => rsplit_path(before_alias(text@)) is None,
        },
{
    let t = before_alias_vec(&chars_of(text));
    match rsplit_path_vec(&t) {
        Some((p, n)) => Some(ImportInfo::import(string_of(&n).as_str(), string_of(&p).as_str())),
        None => None,
    }
}

/// The path before `::{` of a grouped `use`, trimmed.
pub open spec fn use_list_prefix_spec(full: Seq<char>) -> Option<Seq<char>> {
    match find(full, "::{"@) {
        Some(i) => Some(trim(full.take(i))),
        None => None,
    }
}

/// The common path of a grouped `use a::b::{…}`.
pub fn use_list_prefix(full_text: &str) -> (r: Option<String>)
    ensures
        match r {
            Some(p) => use_list_prefix_spec(full_text@) == Some(p@),
            None => use_list_prefix_spec(full_text@) is None,
        },
{
    let f = chars_of(full_text);
    match find_vec(&f, &chars_of("::{")) {
        Some(i) => {
            proof {
                crate::strings::lemma_find(f@, "::{"@);
            }
            let head = slice(&f, 0, i);
            assert(head@ == f@.take(i as int));
            Some(string_of(&trim_vec(&head)))
        },
        None => None,
    }
}

/// A path item inside a grouped `use` under `prefix` (alias dropped):
/// `sub::name` imports `name` from `prefix::sub`, a bare name imports it
/// from `prefix`.
pub open spec fn use_list_item(text: Seq<char>, prefix: Seq<char>) -> (Seq<char>, Seq<char>) {
    let t = before_alias(text);
    match rsplit_path(t) {
        Some((sub, name)) => (name, prefix + "::"@ + sub),
        None => (t, prefix),
    }
}

/// Import of a path item of a grouped `use` with the given common path.
pub fn use_list_item_import(text: &str, prefix: &str) -> (r: ImportInfo)
    ensures
        r@ == (ImportView {
            imported_name: use_list_item(text@, prefix@).0,
            source_path: use_list_item(text@, prefix@).1,
            is_reexport: false,
        }),
{
    let t = before_alias_vec(&chars_of(text));
    match rsplit_path_vec(&t) {
        Some((sub, name)) => {
            let mut path = chars_of(prefix);
            extend_str(&mut path, "::");
            extend(&mut path, &sub);
            ImportInfo::import(string_of(&name).as_str(), string_of(&path).as_str())
        },
        None => ImportInfo::import(string_of(&t).as_str(), prefix),
    }
}

// ---------------------------------------------------------------------------
// Reading definitions off the syntax tree
// ---------------------------------------------------------------------------

/// Where the signature of a definition ends: the start of its body (or, for
/// type-like items without a `body` field, of their first `{` or `;`, else
/// the item's end); `None` for kinds without a signature.
pub open spec fn rust_signature_end(n: SyntaxNode) -> Option<nat> {
    if n.kind@ == "function_item"@ {
        match field_child(n.children@, "body"@) {
            Some(b) => Some(b.start_byte as nat),
            None => None,
        }
    } else if n.kind@ == "struct_item"@ || n.kind@ == "enum_item"@ || n.kind@ == "trait_item"@ || n.kind@ == "impl_item"@
        || n.kind@ == "type_item"@ {
        match field_child(n.children@, "body"@) {
            Some(b) => Some(b.start_byte as nat),
            None => match first_of_kinds(n.children@, "{"@, ";"@) {
                Some(b) => Some(b.start_byte as nat),
                None => Some(n.end_byte as nat),
            },
        }
    } else {
        None
    }
}

/// The declaration signature of a definition node: its text up to the
/// signature end, whitespace collapsed.
pub open spec fn rust_node_signature(n: SyntaxNode) -> Option<Seq<char>> {
    match rust_signature_end(n) {
        Some(e) => match text_until(n, e) {
            Some(h) => collapsed_signature(h),
            None => None,
        },
        None => None,
    }
}

/// Imports of a simple `use` path or alias.
pub open spec fn use_path_imports(text: Seq<char>) -> Seq<ImportView> {
    match rsplit_path(before_alias(text)) {
        Some((p, n)) => seq![ImportView { imported_name: n, source_path: p, is_reexport: false }],
        None => seq![],
    }
}

/// Imports of the items of a `use_list` under the common path `prefix`.
pub open spec fn use_list_imports(items: Seq<SyntaxNode>, prefix: Seq<char>) -> Seq<ImportView>
    decreases items.len(),
{
    if items.len() == 0 {
        seq![]
    } else {
        let it = items.last();
        let own: Seq<ImportView> = if it.kind@ == "identifier"@ {
            seq![ImportView { imported_name: it.text@, source_path: prefix, is_reexport: false }]
        } else if it.kind@ == "use_as_clause"@ || it.kind@ == "scoped_identifier"@ {
            let (name, path) = use_list_item(it.text@, prefix);
            seq![ImportView { imported_name: name, source_path: path, is_reexport: false }]
        } else {
            seq![]
        };
        use_list_imports(items.drop_last(), prefix) + own
    }
}

/// Imports of the `use_list` children of a `scoped_use_list` under `prefix`.
pub open spec fn scoped_list_imports(cs: Seq<SyntaxNode>, prefix: Seq<char>) -> Seq<ImportView>
    decreases cs.len(),
{
    if cs.len() == 0 {
        seq![]
    } else {
        scoped_list_imports(cs.drop_last(), prefix) + if cs.last().kind@ == "use_list"@ {
            use_list_imports(cs.last().children@, prefix)
        } else {
            seq![]
        }
    }
}

/// Imports of the parts of a `use_declaration`.
pub open spec fn use_decl_imports(cs: Seq<SyntaxNode>) -> Seq<ImportView>
    decreases cs.len(),
{
    if cs.len() == 0 {
        seq![]
    } else {
        let c = cs.last();
        let own: Seq<ImportView> = if c.kind@ == "use_as_clause"@ || c.kind@ == "scoped_identifier"@ {
            use_path_imports(c.text@)
        } else if c.kind@ == "scoped_use_list"@ {
            match use_list_prefix_spec(c.text@) {
                Some(prefix) => scoped_list_imports(c.children@, prefix),
                None => seq![],
            }
        } else {
            seq![]
        };
        use_decl_imports(cs.drop_last()) + own
    }
}

/// Imports of the top-level `use` declarations, in source order.
pub open spec fn rust_file_imports(cs: Seq<SyntaxNode>) -> Seq<ImportView>
    decreases cs.len(),
{
    if cs.len() == 0 {
        seq![]
    } else {
        rust_file_imports(cs.drop_last()) + if cs.last().kind@ == "use_declaration"@ {
            use_decl_imports(cs.last().children@)
        } else {
            seq![]
        }
    }
}

fn push_use_list_imports(list: &SyntaxNode, prefix: &String, out: &mut Vec<ImportInfo>)
    ensures
        import_list_view(final(out)@) == import_list_view(old(out)@) + use_list_imports(list.children@, prefix@),
{
    let ghost head = import_list_view(out@);
    let ghost items = list.children@;
    let mut i: usize = 0;
    assert(use_list_imports(items.take(0), prefix@) =~= Seq::<ImportView>::empty());
    while i < list.children.len()
        invariant
            i <= list.children.len(),
            items == list.children@,
            import_list_view(out@) == head + use_list_imports(items.take(i as int), prefix@),
        decreases list.children.len() - i,
    {
        assert(items.take(i + 1).drop_last() =~= items.take(i as int));
        assert(items.take(i + 1).last() == items[i as int]);
        let it = &list.children[i];
        let ghost before = import_list_view(out@);
        proof {
            reveal_strlit("identifier");
            reveal_strlit("use_as_clause");
            reveal_strlit("scoped_identifier");
        }
        if has_kind(it, "identifier") {
            out.push(ImportInfo::import(it.text.as_str(), prefix.as_str()));
            assert(import_list_view(out@) =~= before.push(
                ImportView { imported_name: it.text@, source_path: prefix@, is_reexport: false },
            ));
        } else if has_kind(it, "use_as_clause") || has_kind(it, "scoped_identifier") {
            out.push(use_list_item_import(it.text.as_str(), prefix.as_str()));
            assert(import_list_view(out@) =~= before.push(
                ImportView {
                    imported_name: use_list_item(it.text@, prefix@).0,
                    source_path: use_list_item(it.text@, prefix@).1,
                    is_reexport: false,
                },
            ));
        }
        assert(import_list_view(out@) =~= head + use_list_imports(items.take(i + 1), prefix@));
        i += 1;
    }
    assert(items.take(list.children.len() as int) =~= items);
}

fn push_use_decl_imports(decl: &SyntaxNode, out: &mut Vec<ImportInfo>)
    ensures
        import_list_view(final(out)@) == import_list_view(old(out)@) + use_decl_imports(decl.children@),
{
    let ghost head = import_list_view(out@);
    let ghost cs = decl.children@;
    let mut i: usize = 0;
    assert(use_decl_imports(cs.take(0)) =~= Seq::<ImportView>::empty());
    while i < decl.children.len()
        invariant
            i <= decl.children.len(),
            cs == decl.children@,
            import_list_view(out@) == head + use_decl_imports(cs.take(i as int)),
        decreases decl.children.len() - i,
    {
        assert(cs.take(i + 1).drop_last() =~= cs.take(i as int));
        assert(cs.take(i + 1).last() == cs[i as int]);
        let c = &decl.children[i];
        let ghost before = import_list_view(out@);
        if has_kind(c, "use_as_clause") || has_kind(c, "scoped_identifier") {
            match use_path_import(c.text.as_str()) {
                Some(imp) => out.push(imp),
                None => {},
            }
            assert(import_list_view(out@) =~= before + use_path_imports(c.text@));
        } else if has_kind(c, "scoped_use_list") {
            match use_list_prefix(c.text.as_str()) {
                Some(prefix) => {
                    let ghost start = import_list_view(out@);
                    let ghost gcs = c.children@;
                    let mut j: usize = 0;
                    assert(scoped_list_imports(gcs.take(0), prefix@) =~= Seq::<ImportView>::empty());
                    while j < c.children.len()
                        invariant
                            j <= c.children.len(),
                            gcs == c.children@,
                            import_list_view(out@) == start + scoped_list_imports(gcs.take(j as int), prefix@),
                        decreases c.children.len() - j,
                    {
                        assert(gcs.take(j + 1).drop_last() =~= gcs.take(j as int));
                        assert(gcs.take(j + 1).last() == gcs[j as int]);
                        let ghost mid = import_list_view(out@);
                        if has_kind(&c.children[j], "use_list") {
                            push_use_list_imports(&c.children[j], &prefix, out);
                        }
                        assert(import_list_view(out@) =~= start + scoped_list_imports(gcs.take(j + 1), prefix@));
                        j += 1;
                    }
                    assert(gcs.take(c.children.len() as int) =~= gcs);
                },
                None => {},
            }
        }
        assert(import_list_view(out@) =~= head + use_decl_imports(cs.take(i + 1)));
        i += 1;
    }
    assert(cs.take(decl.children.len() as int) =~= cs);
}

impl RustHandler {
    /// Parse Rust source with this handler's grammar.
    pub fn parse(&self, source: &str) -> (r: Option<SyntaxNode>)
        ensures
            r == rust_parse(source@),
    {
        parse_rust(source)
    }

    /// The outer documentation (`///` lines and `#[doc = "..."]`
    /// attributes) directly above a definition.
    pub fn extract_docstring(&self, source: &str, node: &SyntaxNode) -> (r: Option<String>)
        ensures
            match r {
                Some(d) => rust_doc(source@, node.start_row as nat) == Some(d@),
                None => rust_doc(source@, node.start_row as nat) is None,
            },
    {
        rust_docstring(source, node.start_row)
    }

    /// The identifiers called inside a definition (direct, method and
    /// path calls), sorted, each once.
    pub fn extract_calls(&self, node: &SyntaxNode) -> (r: Vec<String>)
        ensures
            sorted_strict(strings_view(r@)),
            strings_view(r@).to_set() == calls_in(CallSyntax::Rust, *node),
    {
        extract_calls(CallSyntax::Rust, node)
    }

    /// The declaration signature of a function or type-like item: its text
    /// before the body with whitespace collapsed, cut at the body's start
    /// byte. Where that offset would not fall inside the item's text on a
    /// character boundary (which a parse never gives) the result is `None`.
    pub fn extract_signature(&self, node: &SyntaxNode) -> (r: Option<String>)
        ensures
            match r {
                Some(s) => rust_node_signature(*node) == Some(s@),
                None => rust_node_signature(*node) is None,
            },
    {
        proof {
            reveal_strlit("function_item");
        }
        let end: usize = if has_kind(node, "function_item") {
            match child_by_field(node, "body") {
                Some(b) => b.start_byte,
                None => {
                    return None;
                },
            }
        } else if has_kind(node, "struct_item") || has_kind(node, "enum_item") || has_kind(node, "trait_item")
            || has_kind(node, "impl_item") || has_kind(node, "type_item") {
            match child_by_field(node, "body") {
                Some(b) => b.start_byte,
                None => match first_child_of_kinds(node, "{", ";") {
                    Some(b) => b.start_byte,
                    None => node.end_byte,
                },
            }
        } else {
            return None;
        };
        assert(rust_signature_end(*node) == Some(end as nat));
        match node_text_until(node, end) {
            Some(h) => rust_signature_of(h.as_str()),
            None => None,
        }
    }

    /// The imports of a file's top-level `use` declarations, in source
    /// order: simple paths and aliases, and the identifiers and paths of
    /// grouped lists.
    pub fn extract_file_imports(&self, root: &SyntaxNode) -> (r: Vec<ImportInfo>)
        ensures
            import_list_view(r@) == rust_file_imports(root.children@),
    {
        let mut out: Vec<ImportInfo> = Vec::new();
        let ghost cs = root.children@;
        let mut i: usize = 0;
        assert(rust_file_imports(cs.take(0)) =~= Seq::<ImportView>::empty());
        assert(import_list_view(out@) =~= Seq::<ImportView>::empty());
        while i < root.children.len()
            invariant
                i <= root.children.len(),
                cs == root.children@,
                import_list_view(out@) == rust_file_imports(cs.take(i as int)),
            decreases root.children.len() - i,
        {
            assert(cs.take(i + 1).drop_last() =~= cs.take(i as int));
            assert(cs.take(i + 1).last() == cs[i as int]);
            let ghost before = import_list_view(out@);
            if has_kind(&root.children[i], "use_declaration") {
                push_use_decl_imports(&root.children[i], &mut out);
            }
            assert(import_list_view(out@) =~= rust_file_imports(cs.take(i + 1)));
            i += 1;
        }
        assert(cs.take(root.children.len() as int) =~= cs);
        out
    }
}

} // verus!
