//! File-level summary rendering (template-based) and purpose-line cleanup.
use vstd::prelude::*;
use crate::folder::{basename_of, basename_spec, csv_or, csv_or_spec};
use crate::strings::{
    SepKind, chars_of, extend, extend_str, first_line, join, join_strings, join_vec, lines,
    rfind_char, rfind_char_vec, slice, string_of, strings_view, trim, trim_vec, words, words_vec,
};
use crate::text::opt_str;

verus! {

/// Metadata feeding the file summary template.
pub struct FileMeta<'a> {
    pub file_path: &'a str,
    pub language: &'a str,
    /// Public exports (types and functions) defined in this file.
    pub exports: &'a [String],
    /// External imports, each as `"{imported_name} from {source_path}"`.
    pub imports: &'a [String],
    /// Inferred one-sentence purpose; `None` renders a fallback.
    pub purpose: Option<&'a str>,
}

/// Cap on the exports / imports list lengths.
pub const MAX_FILE_LIST: usize = 16;

/// Maximum length, in characters, of the purpose line.
pub const MAX_PURPOSE_CHARS: usize = 140;

/// The basename without its last extension; a leading dot is not an
/// extension separator.
pub open spec fn module_name_spec(path: Seq<char>) -> Seq<char> {
    let base = basename_spec(path);
    match rfind_char(base, '.') {
        Some(idx) => if idx > 0 {
            base.take(idx)
        } else {
            base
        },
        None => base,
    }
}

/// The four-line file summary.
pub open spec fn file_summary(
    path: Seq<char>,
    language: Seq<char>,
    exports: Seq<Seq<char>>,
    imports: Seq<Seq<char>>,
    purpose: Option<Seq<char>>,
) -> Seq<char> {
    "File: "@ + path + " (module: "@ + module_name_spec(path) + ", "@ + language + ")\nExports: "@
        + csv_or_spec(exports, "none"@) + "\nImports: "@ + csv_or_spec(imports, "none"@)
        + "\nPurpose: "@ + match purpose {
        Some(p) => p,
        None => "(none extracted)"@,
    }
}

/// The `|`-separated canonical tuple of a file's metadata.
pub open spec fn file_tuple(
    path: Seq<char>,
    language: Seq<char>,
    exports: Seq<Seq<char>>,
    imports: Seq<Seq<char>>,
    purpose: Option<Seq<char>>,
) -> Seq<char> {
    path + "|"@ + language + "|"@ + join(exports, ","@) + "|"@ + join(imports, ","@) + "|"@
        + match purpose {
        Some(p) => p,
        None => seq![],
    }
}

impl<'a> FileMeta<'a> {
    pub open spec fn summary_spec(&self) -> Seq<char> {
        file_summary(
            self.file_path@,
            self.language@,
            strings_view(self.exports@),
            strings_view(self.imports@),
            opt_str(self.purpose),
        )
    }

    pub open spec fn tuple_spec(&self) -> Seq<char> {
        file_tuple(
            self.file_path@,
            self.language@,
            strings_view(self.exports@),
            strings_view(self.imports@),
            opt_str(self.purpose),
        )
    }
}

/// Module name for the dual label: the basename with its last extension
/// stripped (`"src/retriever.rs"` gives `"retriever"`).
pub fn module_name_of(file_path: &str) -> (r: String)
    ensures
        r@ == module_name_spec(file_path@),
{
    let base = chars_of(basename_of(file_path).as_str());
    match rfind_char_vec(&base, '.') {
        Some(idx) => {
            if idx > 0 {
                string_of(&slice(&base, 0, idx))
            } else {
                string_of(&base)
            }
        },
        None => string_of(&base),
    }
}

/// Render the canonical four-line file summary. The first line carries a
/// `module:` synonym (the module name) and the language.
pub fn render_summary(m: &FileMeta<'_>) -> (r: String)
    ensures
        r@ == m.summary_spec(),
{
    let mut out: Vec<char> = Vec::new();
    extend_str(&mut out, "File: ");
    extend_str(&mut out, m.file_path);
    extend_str(&mut out, " (module: ");
    extend_str(&mut out, module_name_of(m.file_path).as_str());
    extend_str(&mut out, ", ");
    extend_str(&mut out, m.language);
    extend_str(&mut out, ")\nExports: ");
    extend_str(&mut out, csv_or(m.exports, "none").as_str());
    extend_str(&mut out, "\nImports: ");
    extend_str(&mut out, csv_or(m.imports, "none").as_str());
    extend_str(&mut out, "\nPurpose: ");
    match m.purpose {
        Some(p) => extend_str(&mut out, p),
        None => extend_str(&mut out, "(none extracted)"),
    }
    string_of(&out)
}

/// Canonical metadata tuple, the stable hash input for the summary's
/// content hash.
pub fn canonical_tuple(m: &FileMeta<'_>) -> (r: String)
    ensures
        r@ == m.tuple_spec(),
{
    let mut out: Vec<char> = Vec::new();
    extend_str(&mut out, m.file_path);
    extend_str(&mut out, "|");
    extend_str(&mut out, m.language);
    extend_str(&mut out, "|");
    extend(&mut out, &join_strings(m.exports, ","));
    extend_str(&mut out, "|");
    extend(&mut out, &join_strings(m.imports, ","));
    extend_str(&mut out, "|");
    match m.purpose {
        Some(p) => extend_str(&mut out, p),
        None => {},
    }
    string_of(&out)
}

/// A cleaned purpose line: the first line, trimmed, with whitespace runs
/// collapsed to single spaces and cut to `MAX_PURPOSE_CHARS` characters;
/// `None` when that first line is blank.
pub open spec fn clean_purpose_spec(raw: Seq<char>) -> Option<Seq<char>> {
    let ls = lines(raw);
    let first = trim(if ls.len() > 0 { ls[0] } else { seq![] });
    if first.len() == 0 {
        None
    } else {
        let collapsed = join(words(first, SepKind::Whitespace), " "@);
        if collapsed.len() <= MAX_PURPOSE_CHARS {
            Some(collapsed)
        } else {
            Some(collapsed.take(MAX_PURPOSE_CHARS as int))
        }
    }
}

/// Trim a candidate purpose string: first line only, whitespace collapsed,
/// capped at `MAX_PURPOSE_CHARS` characters; `None` for a blank first line.
pub fn clean_purpose(raw: &str) -> (r: Option<String>)
    ensures
        match r {
            Some(p) => clean_purpose_spec(raw@) == Some(p@),
            None => clean_purpose_spec(raw@) is None,
        },
{
    let first = trim_vec(&first_line(&chars_of(raw)));
    if first.len() == 0 {
        return None;
    }
    let ws = words_vec(&first, SepKind::Whitespace);
    let collapsed = join_vec(&ws, &chars_of(" "));
    if collapsed.len() <= MAX_PURPOSE_CHARS {
        Some(string_of(&collapsed))
    } else {
        Some(string_of(&slice(&collapsed, 0, MAX_PURPOSE_CHARS)))
    }
}

/// Filename-derived purpose fallback: "This file defines {module name}."
pub fn filename_purpose(file_path: &str) -> (r: String)
    ensures
        r@ == "This file defines "@ + module_name_spec(file_path@) + "."@,
{
    let mut out: Vec<char> = Vec::new();
    extend_str(&mut out, "This file defines ");
    extend_str(&mut out, module_name_of(file_path).as_str());
    extend_str(&mut out, ".");
    string_of(&out)
}

} // verus!
