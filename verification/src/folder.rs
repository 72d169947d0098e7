//! Folder-level summary rendering (template-based) and the per-language
//! public-visibility heuristic.
use vstd::prelude::*;
use crate::strings::{
    SepKind, chars_of, decimal, decimal_of, extend, extend_str, join, join_strings, split_chars,
    split_chars_vec, starts_with, starts_with_vec, string_of, strings_view, trim_start, words,
    words_vec,
};

verus! {

/// Metadata feeding the folder summary template.
pub struct FolderMeta<'a> {
    pub folder_path: &'a str,
    pub file_count: usize,
    pub languages: &'a [String],
    pub key_types: &'a [String],
    pub key_functions: &'a [String],
    pub subfolders: &'a [String],
}

/// Maximum number of key types/functions to include in a summary.
pub const MAX_KEYS: usize = 12;

/// The items joined by ", ", or the fallback when there are none.
pub open spec fn csv_or_spec(items: Seq<Seq<char>>, fallback: Seq<char>) -> Seq<char> {
    if items.len() == 0 {
        fallback
    } else {
        join(items, ", "@)
    }
}

/// The last non-empty path component, splitting at `/` and `\`; empty when
/// there is none.
pub open spec fn basename_spec(path: Seq<char>) -> Seq<char> {
    let ws = words(path, SepKind::PathSep);
    if ws.len() > 0 {
        ws.last()
    } else {
        seq![]
    }
}

/// `"n/a"` for an empty string, else the string.
pub open spec fn or_na_spec(s: Seq<char>) -> Seq<char> {
    if s.len() == 0 {
        "n/a"@
    } else {
        s
    }
}

/// The five-line folder summary.
pub open spec fn folder_summary(
    path: Seq<char>,
    file_count: nat,
    languages: Seq<Seq<char>>,
    key_types: Seq<Seq<char>>,
    key_functions: Seq<Seq<char>>,
    subfolders: Seq<Seq<char>>,
) -> Seq<char> {
    "Folder: "@ + path + " (module: "@ + basename_spec(path) + ")\nContains: "@ + decimal(file_count)
        + " files ("@ + csv_or_spec(languages, "n/a"@) + ")\nKey types: "@ + csv_or_spec(
        key_types,
        "none"@,
    ) + "\nKey functions: "@ + csv_or_spec(key_functions, "none"@) + "\nSubfolders: "@ + csv_or_spec(
        subfolders,
        "none"@,
    )
}

/// The `|`-separated canonical tuple of a folder's metadata.
pub open spec fn folder_tuple(
    path: Seq<char>,
    file_count: nat,
    languages: Seq<Seq<char>>,
    key_types: Seq<Seq<char>>,
    key_functions: Seq<Seq<char>>,
    subfolders: Seq<Seq<char>>,
) -> Seq<char> {
    path + "|"@ + decimal(file_count) + "|"@ + join(languages, ","@) + "|"@ + join(key_types, ","@)
        + "|"@ + join(key_functions, ","@) + "|"@ + join(subfolders, ","@)
}

impl<'a> FolderMeta<'a> {
    pub open spec fn summary_spec(&self) -> Seq<char> {
        folder_summary(
            self.folder_path@,
            self.file_count as nat,
            strings_view(self.languages@),
            strings_view(self.key_types@),
            strings_view(self.key_functions@),
            strings_view(self.subfolders@),
        )
    }

    pub open spec fn tuple_spec(&self) -> Seq<char> {
        folder_tuple(
            self.folder_path@,
            self.file_count as nat,
            strings_view(self.languages@),
            strings_view(self.key_types@),
            strings_view(self.key_functions@),
            strings_view(self.subfolders@),
        )
    }
}

/// The items joined by ", ", or `fallback` when there are none.
pub fn csv_or(items: &[String], fallback: &str) -> (r: String)
    ensures
        r@ == csv_or_spec(strings_view(items@), fallback@),
{
    if items.len() == 0 {
        fallback.to_string()
    } else {
        string_of(&join_strings(items, ", "))
    }
}

/// `"n/a"` for an empty string, else the string itself.
pub fn or_na(s: &str) -> (r: String)
    ensures
        r@ == or_na_spec(s@),
{
    let cs = chars_of(s);
    if cs.len() == 0 {
        "n/a".to_string()
    } else {
        s.to_string()
    }
}

/// Last path component, treating both `/` and `\` as separators; empty when
/// the path has no non-empty component.
pub fn basename_of(path: &str) -> (r: String)
    ensures
        r@ == basename_spec(path@),
{
    let ws = words_vec(&chars_of(path), SepKind::PathSep);
    if ws.len() > 0 {
        string_of(&ws[ws.len() - 1])
    } else {
        String::new()
    }
}

/// Render the canonical folder summary. The first line carries a `module:`
/// synonym (the folder basename).
pub fn render_summary(m: &FolderMeta<'_>) -> (r: String)
    ensures
        r@ == m.summary_spec(),
{
    let mut out: Vec<char> = Vec::new();
    extend_str(&mut out, "Folder: ");
    extend_str(&mut out, m.folder_path);
    extend_str(&mut out, " (module: ");
    extend_str(&mut out, basename_of(m.folder_path).as_str());
    extend_str(&mut out, ")\nContains: ");
    extend(&mut out, &decimal_of(m.file_count));
    extend_str(&mut out, " files (");
    extend_str(&mut out, csv_or(m.languages, "n/a").as_str());
    extend_str(&mut out, ")\nKey types: ");
    extend_str(&mut out, csv_or(m.key_types, "none").as_str());
    extend_str(&mut out, "\nKey functions: ");
    extend_str(&mut out, csv_or(m.key_functions, "none").as_str());
    extend_str(&mut out, "\nSubfolders: ");
    extend_str(&mut out, csv_or(m.subfolders, "none").as_str());
    string_of(&out)
}

/// Canonical metadata tuple, the stable hash input for the summary's
/// content hash.
pub fn canonical_tuple(m: &FolderMeta<'_>) -> (r: String)
    ensures
        r@ == m.tuple_spec(),
{
    let mut out: Vec<char> = Vec::new();
    extend_str(&mut out, m.folder_path);
    extend_str(&mut out, "|");
    extend(&mut out, &decimal_of(m.file_count));
    extend_str(&mut out, "|");
    extend(&mut out, &join_strings(m.languages, ","));
    extend_str(&mut out, "|");
    extend(&mut out, &join_strings(m.key_types, ","));
    extend_str(&mut out, "|");
    extend(&mut out, &join_strings(m.key_functions, ","));
    extend_str(&mut out, "|");
    extend(&mut out, &join_strings(m.subfolders, ","));
    string_of(&out)
}

/// `export` is one of the signature's word tokens (splitting at characters
/// that are neither alphanumeric nor `_`).
pub open spec fn has_export(sig: Seq<char>) -> bool {
    split_chars(sig, SepKind::NonWord).contains("export"@)
}

/// Public-visibility heuristic: Rust signatures starting (after leading
/// whitespace) with `pub `; Python identifiers not starting with `_`, or
/// starting with `__`; TypeScript signatures with an `export` token; every
/// other language counts as public.
pub open spec fn public_spec(language: Seq<char>, signature: Option<Seq<char>>, identifier: Seq<char>) -> bool {
    if language == "rust"@ {
        match signature {
            Some(s) => starts_with(trim_start(s), "pub "@),
            None => false,
        }
    } else if language == "python"@ {
        !starts_with(identifier, "_"@) || starts_with(identifier, "__"@)
    } else if language == "typescript"@ {
        match signature {
            Some(s) => has_export(s),
            None => false,
        }
    } else {
        true
    }
}

fn has_export_token(signature: &str) -> (r: bool)
    ensures
        r == has_export(signature@),
{
    let parts = split_chars_vec(&chars_of(signature), SepKind::NonWord);
    let ghost pv = parts@.map_values(|w: Vec<char>| w@);
    let token = chars_of("export");
    let mut i: usize = 0;
    while i < parts.len()
        invariant
            i <= parts.len(),
            pv == parts@.map_values(|w: Vec<char>| w@),
            pv == split_chars(signature@, SepKind::NonWord),
            token@ == "export"@,
            forall|j: int| 0 <= j < i ==> pv[j] != "export"@,
        decreases parts.len() - i,
    {
        if crate::strings::eq(&parts[i], &token) {
            assert(pv[i as int] == "export"@);
            return true;
        }
        i += 1;
    }
    false
}

fn trim_start_vec(s: &Vec<char>) -> (r: Vec<char>)
    ensures
        r@ == trim_start(s@),
{
    let mut a: usize = 0;
    assert(s@.skip(0) == s@);
    while a < s.len() && crate::unicode::is_whitespace(s[a])
        invariant
            a <= s.len(),
            trim_start(s@) == trim_start(s@.skip(a as int)),
        decreases s.len() - a,
    {
        assert(s@.skip(a as int).drop_first() == s@.skip(a + 1));
        a += 1;
    }
    proof {
        if a == s.len() {
            assert(s@.skip(a as int).len() == 0);
        }
    }
    crate::strings::slice(s, a, s.len())
}

/// Public-visibility heuristic per language.
pub fn is_public(language: &str, signature: Option<&str>, identifier: &str) -> (r: bool)
    ensures
        r == public_spec(language@, crate::text::opt_str(signature), identifier@),
{
    let lang = chars_of(language);
    if crate::strings::eq(&lang, &chars_of("rust")) {
        match signature {
            Some(s) => starts_with_vec(&trim_start_vec(&chars_of(s)), &chars_of("pub ")),
            None => false,
        }
    } else if crate::strings::eq(&lang, &chars_of("python")) {
        let id = chars_of(identifier);
        !starts_with_vec(&id, &chars_of("_")) || starts_with_vec(&id, &chars_of("__"))
    } else if crate::strings::eq(&lang, &chars_of("typescript")) {
        match signature {
            Some(s) => has_export_token(s),
            None => false,
        }
    } else {
        true
    }
}

} // verus!
