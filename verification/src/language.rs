//! Values extracted per source file for edge resolution: imports and raw
//! type relations.
use vstd::prelude::*;
use crate::strings::{
    SepKind, chars_of, contains, contains_lit, lines, lines_vec, split_chars, split_chars_vec,
    starts_with, starts_with_vec, string_of, trim, trim_vec,
};
use crate::types::{EdgeContext, EdgeRelation};
use crate::unicode::{char_alphabetic, char_lowercase, char_uppercase, is_alphabetic, is_lowercase, is_uppercase, uppercase};

verus! {

/// An import found in a source file.
#[derive(Debug, Clone)]
pub struct ImportInfo {
    /// The imported symbol name, e.g. "normalize_path".
    pub imported_name: String,
    /// The source module path, e.g. "crate::ingestion" or "./utils".
    pub source_path: String,
    /// A re-export (`pub use`, `export ... from`) rather than a private import.
    pub is_reexport: bool,
}

pub struct ImportView {
    pub imported_name: Seq<char>,
    pub source_path: Seq<char>,
    pub is_reexport: bool,
}

impl View for ImportInfo {
    type V = ImportView;

    open spec fn view(&self) -> ImportView {
        ImportView {
            imported_name: self.imported_name@,
            source_path: self.source_path@,
            is_reexport: self.is_reexport,
        }
    }
}

impl ImportInfo {
    /// A private import.
    pub fn import(imported_name: &str, source_path: &str) -> (r: ImportInfo)
        ensures
            r@ == (ImportView {
                imported_name: imported_name@,
                source_path: source_path@,
                is_reexport: false,
            }),
    {
        ImportInfo {
            imported_name: imported_name.to_string(),
            source_path: source_path.to_string(),
            is_reexport: false,
        }
    }
}

/// A raw type relation of a definition, before its target is resolved.
#[derive(Debug, Clone)]
pub struct TypeRelation {
    /// The referenced type or trait identifier.
    pub target_name: String,
    pub relation: EdgeRelation,
    /// Meaningful only for `References`.
    pub context: EdgeContext,
}

pub struct TypeRelationView {
    pub target_name: Seq<char>,
    pub relation: EdgeRelation,
    pub context: EdgeContext,
}

impl View for TypeRelation {
    type V = TypeRelationView;

    open spec fn view(&self) -> TypeRelationView {
        TypeRelationView {
            target_name: self.target_name@,
            relation: self.relation,
            context: self.context,
        }
    }
}

impl TypeRelation {
    pub fn new(target_name: &str, relation: EdgeRelation, context: EdgeContext) -> (r: TypeRelation)
        ensures
            r@ == (TypeRelationView { target_name: target_name@, relation, context }),
    {
        TypeRelation { target_name: target_name.to_string(), relation, context }
    }
}

// ---------------------------------------------------------------------------
// Rationale comments
// ---------------------------------------------------------------------------

/// Bytes a character takes in UTF-8.
pub open spec fn char_bytes(c: char) -> nat {
    if (c as u32) < 0x80 {
        1
    } else if (c as u32) < 0x800 {
        2
    } else if (c as u32) < 0x10000 {
        3
    } else {
        4
    }
}

/// Length in bytes of the UTF-8 encoding.
pub open spec fn utf8_len(s: Seq<char>) -> nat
    decreases s.len(),
{
    if s.len() == 0 {
        0
    } else {
        utf8_len(s.drop_last()) + char_bytes(s.last())
    }
}

/// A comment line, in any of the supported languages' syntaxes.
pub open spec fn is_comment_line(line: Seq<char>) -> bool {
    starts_with(line, "//"@) || starts_with(line, "#"@) || starts_with(line, "*"@) || starts_with(line, "/*"@)
}

/// The line carries a `NOTE:`, `WHY:` or `HACK:` marker, in any case.
pub open spec fn has_rationale_marker(line: Seq<char>) -> bool {
    let u = uppercase(line);
    contains(u, "NOTE:"@) || contains(u, "WHY:"@) || contains(u, "HACK:"@)
}

/// One of the rationale markers themselves, in any case.
pub open spec fn is_marker_word(tok: Seq<char>) -> bool {
    let u = uppercase(tok);
    u == "NOTE"@ || u == "WHY"@ || u == "HACK"@
}

/// The token is written in CamelCase: it mixes upper- and lowercase letters
/// (so all-caps and all-lowercase words are not).
pub open spec fn camel_case(tok: Seq<char>) -> bool {
    &&& exists|k: int| 0 <= k < tok.len() && #[trigger] char_uppercase(tok[k])
    &&& exists|k: int| 0 <= k < tok.len() && #[trigger] char_lowercase(tok[k])
}

/// An identifier named in a rationale comment: at least four bytes long,
/// starting with a letter or `_`, not a marker word, and either snake_case
/// (contains `_`) or CamelCase. Prose words, capitalised or not, and
/// all-caps words do not qualify.
pub open spec fn identifier_like(tok: Seq<char>) -> bool {
    &&& utf8_len(tok) >= 4
    &&& tok.len() > 0
    &&& (char_alphabetic(tok[0]) || tok[0] == '_')
    &&& !is_marker_word(tok)
    &&& (tok.contains('_') || camel_case(tok))
}

/// The identifier-like word tokens of a marked comment line.
pub open spec fn marker_tokens(line: Seq<char>) -> Seq<Seq<char>> {
    if has_rationale_marker(line) {
        split_chars(line, SepKind::NonWord).filter(|t: Seq<char>| identifier_like(t))
    } else {
        seq![]
    }
}

/// Scanning upward from the row above `i`: blank lines are passed over,
/// the first non-comment line ends the scan, and each marked comment line
/// contributes its identifier-like tokens (nearest line first).
pub open spec fn rationale_scan(ls: Seq<Seq<char>>, i: nat) -> Seq<Seq<char>>
    decreases i,
{
    if i == 0 {
        seq![]
    } else {
        let line = trim(
            if i - 1 < ls.len() {
                ls[i - 1]
            } else {
                seq![]
            },
        );
        if line.len() == 0 {
            rationale_scan(ls, (i - 1) as nat)
        } else if !is_comment_line(line) {
            seq![]
        } else {
            marker_tokens(line) + rationale_scan(ls, (i - 1) as nat)
        }
    }
}

fn utf8_len_at_least_4(s: &Vec<char>) -> (r: bool)
    ensures
        r == (utf8_len(s@) >= 4),
{
    let mut total: usize = 0;
    let mut i: usize = 0;
    while i < s.len()
        invariant
            i <= s.len(),
            total == utf8_len(s@.take(i as int)),
            total < 4,
        decreases s.len() - i,
    {
        assert(s@.take(i + 1).drop_last() =~= s@.take(i as int));
        let c = s[i];
        let n: usize = if (c as u32) < 0x80 {
            1
        } else if (c as u32) < 0x800 {
            2
        } else if (c as u32) < 0x10000 {
            3
        } else {
            4
        };
        total = total + n;
        i += 1;
        if total >= 4 {
            proof {
                lemma_utf8_len_prefix(s@, i as int);
            }
            return true;
        }
    }
    assert(s@.take(s.len() as int) =~= s@);
    false
}

proof fn lemma_utf8_len_prefix(s: Seq<char>, i: int)
    requires
        0 <= i <= s.len(),
    ensures
        utf8_len(s.take(i)) <= utf8_len(s),
    decreases s.len(),
{
    if i < s.len() {
        assert(s.drop_last().take(i) =~= s.take(i));
        lemma_utf8_len_prefix(s.drop_last(), i);
    } else {
        assert(s.take(i) =~= s);
    }
}

fn has_upper_and_lower(tok: &Vec<char>) -> (r: bool)
    ensures
        r == camel_case(tok@),
{
    let mut up = false;
    let mut low = false;
    let mut i: usize = 0;
    while i < tok.len()
        invariant
            i <= tok.len(),
            up == exists|k: int| 0 <= k < i && #[trigger] char_uppercase(tok@[k]),
            low == exists|k: int| 0 <= k < i && #[trigger] char_lowercase(tok@[k]),
        decreases tok.len() - i,
    {
        if is_uppercase(tok[i]) {
            up = true;
        }
        if is_lowercase(tok[i]) {
            low = true;
        }
        i += 1;
    }
    up && low
}

fn contains_underscore(tok: &Vec<char>) -> (r: bool)
    ensures
        r == tok@.contains('_'),
{
    let mut i: usize = 0;
    while i < tok.len()
        invariant
            i <= tok.len(),
            forall|k: int| 0 <= k < i ==> tok@[k] != '_',
        decreases tok.len() - i,
    {
        if tok[i] == '_' {
            assert(tok@[i as int] == '_');
            return true;
        }
        i += 1;
    }
    false
}

fn identifier_like_vec(tok: &Vec<char>) -> (r: bool)
    ensures
        r == identifier_like(tok@),
{
    if !utf8_len_at_least_4(tok) || tok.len() == 0 {
        return false;
    }
    if !(is_alphabetic(tok[0]) || tok[0] == '_') {
        return false;
    }
    let up = crate::strings::upper_vec(tok);
    if crate::strings::eq(&up, &chars_of("NOTE")) || crate::strings::eq(&up, &chars_of("WHY"))
        || crate::strings::eq(&up, &chars_of("HACK")) {
        return false;
    }
    contains_underscore(tok) || has_upper_and_lower(tok)
}

fn marker_tokens_vec(line: &Vec<char>) -> (r: Vec<Vec<char>>)
    ensures
        r@.map_values(|w: Vec<char>| w@) == marker_tokens(line@),
{
    let up = crate::strings::upper_vec(line);
    if !(contains_lit(&up, "NOTE:") || contains_lit(&up, "WHY:") || contains_lit(&up, "HACK:")) {
        let r: Vec<Vec<char>> = Vec::new();
        assert(r@.map_values(|w: Vec<char>| w@) =~= Seq::<Seq<char>>::empty());
        return r;
    }
    let parts = split_chars_vec(line, SepKind::NonWord);
    let ghost all = parts@.map_values(|w: Vec<char>| w@);
    let mut found: Vec<Vec<char>> = Vec::new();
    let mut i: usize = 0;
    while i < parts.len()
        invariant
            i <= parts.len(),
            all == parts@.map_values(|w: Vec<char>| w@),
            all == split_chars(line@, SepKind::NonWord),
            found@.map_values(|w: Vec<char>| w@) == all.take(i as int).filter(|t: Seq<char>| identifier_like(t)),
        decreases parts.len() - i,
    {
        assert(all.take(i + 1) == all.take(i as int).push(all[i as int]));
        reveal_with_fuel(Seq::filter, 1);
        assert(all.take(i + 1).drop_last() == all.take(i as int));
        if identifier_like_vec(&parts[i]) {
            let ghost before = found@.map_values(|w: Vec<char>| w@);
            found.push(parts[i].clone());
            assert(found@.map_values(|w: Vec<char>| w@) =~= before.push(all[i as int]));
        }
        i += 1;
    }
    assert(all.take(parts.len() as int) == all);
    found
}

/// Identifiers named in `NOTE:` / `WHY:` / `HACK:` comments directly above
/// the definition starting at row `def_start_row` (0-based): scanning
/// upward over blank lines and comment lines until the first code line,
/// each marked comment contributes its identifier-like tokens (CamelCase
/// or snake_case, at least four bytes, not a marker word), nearest line
/// first.
pub fn extract_rationale_targets(source: &str, def_start_row: usize) -> (r: Vec<String>)
    ensures
        crate::strings::strings_view(r@) == rationale_scan(lines(source@), def_start_row as nat),
{
    let ls = lines_vec(&chars_of(source));
    let ghost lv = ls@.map_values(|w: Vec<char>| w@);
    let mut found: Vec<String> = Vec::new();
    let mut i = def_start_row;
    let mut done = false;
    proof {
        assert(crate::strings::strings_view(found@) =~= Seq::<Seq<char>>::empty());
    }
    while i > 0 && !done
        invariant
            i <= def_start_row,
            lv == ls@.map_values(|w: Vec<char>| w@),
            lv == lines(source@),
            rationale_scan(lv, def_start_row as nat) == crate::strings::strings_view(found@) + if done {
                Seq::<Seq<char>>::empty()
            } else {
                rationale_scan(lv, i as nat)
            },
        decreases i,
    {
        let ghost before = crate::strings::strings_view(found@);
        i -= 1;
        let line = if i < ls.len() {
            trim_vec(&ls[i])
        } else {
            Vec::new()
        };
        assert(line@ == trim(if i < lv.len() { lv[i as int] } else { seq![] }));
        if line.len() == 0 {
        } else {
            let is_comment = starts_with_vec(&line, &chars_of("//")) || starts_with_vec(&line, &chars_of("#"))
                || starts_with_vec(&line, &chars_of("*")) || starts_with_vec(&line, &chars_of("/*"));
            if !is_comment {
                done = true;
                assert(before + Seq::<Seq<char>>::empty() =~= before);
            } else {
                let toks = marker_tokens_vec(&line);
                let ghost tv = toks@.map_values(|w: Vec<char>| w@);
                let mut j: usize = 0;
                while j < toks.len()
                    invariant
                        j <= toks.len(),
                        tv == toks@.map_values(|w: Vec<char>| w@),
                        crate::strings::strings_view(found@) == before + tv.take(j as int),
                    decreases toks.len() - j,
                {
                    let ghost b2 = crate::strings::strings_view(found@);
                    found.push(string_of(&toks[j]));
                    assert(crate::strings::strings_view(found@) =~= b2.push(tv[j as int]));
                    assert(tv.take(j + 1) =~= tv.take(j as int).push(tv[j as int]));
                    j += 1;
                }
                assert(tv.take(toks.len() as int) =~= tv);
                assert(before + (tv + rationale_scan(lv, i as nat)) =~= (before + tv) + rationale_scan(lv, i as nat));
            }
        }
    }
    proof {
        if !done {
            assert(i == 0);
            assert(crate::strings::strings_view(found@) + Seq::<Seq<char>>::empty() =~= crate::strings::strings_view(found@));
        } else {
            assert(crate::strings::strings_view(found@) + Seq::<Seq<char>>::empty() =~= crate::strings::strings_view(found@));
        }
    }
    found
}

} // verus!
