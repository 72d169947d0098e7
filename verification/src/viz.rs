//! The decisions around fetching a project's topology visualisation
//! artifact: its file name, and which responses are errors.
use vstd::prelude::*;
use crate::strings::{chars_of, decimal, decimal_of, eq, extend, extend_str, find, find_vec, rfind_char, rfind_char_vec, slice, string_of};

verus! {

/// Why an artifact fetch produced nothing renderable.
#[derive(Debug, Clone, PartialEq)]
pub enum VizFetchError {
    /// 404: the project has no topology artifact (not an error state).
    Missing,
    Other(String),
}

/// The artifact schema version this reader understands.
pub const VIZ_SCHEMA_VERSION: u32 = 1;

/// ASCII letters and digits, `.`, `_` and `-` are kept; anything else
/// becomes `_`.
pub open spec fn sanitize_char(c: char) -> char {
    if ('a' <= c && c <= 'z') || ('A' <= c && c <= 'Z') || ('0' <= c && c <= '9') || c == '.' || c == '_'
        || c == '-' {
        c
    } else {
        '_'
    }
}

pub open spec fn sanitize_spec(p: Seq<char>) -> Seq<char> {
    p.map_values(|c: char| sanitize_char(c))
}

/// A sanitized name is a safe file-name component: it has the name's
/// length, holds no `/` (each of its characters is kept by sanitizing), and
/// sanitizing it again changes nothing, so reader and writer of an artifact
/// agree on its name.
pub proof fn lemma_sanitize_safe_idempotent(p: Seq<char>)
    ensures
        sanitize_spec(p).len() == p.len(),
        !sanitize_spec(p).contains('/'),
        forall|i: int| 0 <= i < p.len() ==> sanitize_char(#[trigger] sanitize_spec(p)[i]) == sanitize_spec(p)[i],
        sanitize_spec(sanitize_spec(p)) == sanitize_spec(p),
{
    let q = sanitize_spec(p);
    assert(sanitize_spec(q) =~= q);
}

/// Project name as a file-name component.
pub fn sanitize_project(project: &str) -> (r: String)
    ensures
        r@ == sanitize_spec(project@),
{
    let cs = chars_of(project);
    let mut out: Vec<char> = Vec::new();
    let mut i: usize = 0;
    while i < cs.len()
        invariant
            i <= cs.len(),
            out@ == sanitize_spec(cs@.take(i as int)),
        decreases cs.len() - i,
    {
        let c = cs[i];
        let keep = ('a' <= c && c <= 'z') || ('A' <= c && c <= 'Z') || ('0' <= c && c <= '9') || c == '.'
            || c == '_' || c == '-';
        if keep {
            out.push(c);
        } else {
            out.push('_');
        }
        assert(sanitize_spec(cs@.take(i + 1)) =~= sanitize_spec(cs@.take(i as int)).push(sanitize_char(c)));
        i += 1;
    }
    assert(cs@.take(cs.len() as int) =~= cs@);
    string_of(&out)
}

/// The relative URL of a project's artifact.
pub fn viz_url(project: &str) -> (r: String)
    ensures
        r@ == "static/viz/graph_viz_"@ + sanitize_spec(project@) + ".json"@,
{
    let mut out = chars_of("static/viz/graph_viz_");
    extend_str(&mut out, sanitize_project(project).as_str());
    extend_str(&mut out, ".json");
    string_of(&out)
}

/// A 404 means the artifact is missing; any other failed status is an
/// error naming the status; a successful one is fine.
pub fn check_response_status(status: u16, ok: bool) -> (r: Result<(), VizFetchError>)
    ensures
        status == 404 ==> r == Err::<(), VizFetchError>(VizFetchError::Missing),
        status != 404 && !ok ==> (r matches Err(VizFetchError::Other(m)) && m@ == "Fetch failed ("@ + decimal(
            status as nat,
        ) + ")"@),
        status != 404 && ok ==> r is Ok,
{
    if status == 404 {
        return Err(VizFetchError::Missing);
    }
    if !ok {
        let mut msg = chars_of("Fetch failed (");
        extend(&mut msg, &decimal_of(status as usize));
        extend_str(&mut msg, ")");
        return Err(VizFetchError::Other(string_of(&msg)));
    }
    Ok(())
}

/// An artifact of another schema version is rejected with a message naming
/// both versions.
pub fn check_schema_version(schema_version: u32) -> (r: Result<(), VizFetchError>)
    ensures
        schema_version == VIZ_SCHEMA_VERSION ==> r is Ok,
        schema_version != VIZ_SCHEMA_VERSION ==> (r matches Err(VizFetchError::Other(m)) && m@
            == "Unsupported viz schema v"@ + decimal(schema_version as nat) + " (expected v"@ + decimal(
            VIZ_SCHEMA_VERSION as nat,
        ) + ")"@),
{
    if schema_version == VIZ_SCHEMA_VERSION {
        return Ok(());
    }
    let mut msg = chars_of("Unsupported viz schema v");
    extend(&mut msg, &decimal_of(schema_version as usize));
    extend_str(&mut msg, " (expected v");
    extend(&mut msg, &decimal_of(VIZ_SCHEMA_VERSION as usize));
    extend_str(&mut msg, ")");
    Err(VizFetchError::Other(string_of(&msg)))
}

// ---------------------------------------------------------------------------
// The topology view
// ---------------------------------------------------------------------------

/// Palette slots of the legend; communities past the last slot are "Other".
pub const LEGEND_SLOTS: u32 = 8;

/// The CSS colour of a community: its own palette slot (1-based) for the
/// first `LEGEND_SLOTS` ids, else the neutral "Other" colour, so no two
/// communities share a hue.
pub open spec fn community_color_spec(id: u32) -> Seq<char> {
    if id < LEGEND_SLOTS {
        "var(--viz-c"@ + decimal(id as nat + 1) + ")"@
    } else {
        "var(--viz-other)"@
    }
}

/// CSS colour for a community id.
pub fn community_color(id: u32) -> (r: String)
    ensures
        r@ == community_color_spec(id),
{
    if id < LEGEND_SLOTS {
        let mut out = chars_of("var(--viz-c");
        extend(&mut out, &decimal_of(id as usize + 1));
        extend_str(&mut out, ")");
        string_of(&out)
    } else {
        "var(--viz-other)".to_string()
    }
}

/// The text before the first `/` (all of it without one).
pub open spec fn first_segment(path: Seq<char>) -> Seq<char> {
    match find(path, "/"@) {
        Some(i) => path.take(i),
        None => path,
    }
}

/// The text after the last `/` (all of it without one).
pub open spec fn last_segment(path: Seq<char>) -> Seq<char> {
    match rfind_char(path, '/') {
        Some(i) => path.skip(i + 1),
        None => path,
    }
}

/// The chat query a click on a node of the topology graph asks: about a
/// file's role in its project's architecture, or about what a definition
/// does and what depends on it, naming the project (the first segment of
/// the project-prefixed path) and, for a definition, its file.
pub open spec fn node_query_spec(label: Seq<char>, id: Seq<char>, kind: Seq<char>, file: Seq<char>) -> Seq<char> {
    let name = if label.len() == 0 { id } else { label };
    let project = first_segment(file);
    if kind == "file"@ {
        if project.len() == 0 {
            "What is the role of `"@ + name + "` in the architecture of this project?"@
        } else {
            "What is the role of `"@ + name + "` in the architecture of the `"@ + project + "` project?"@
        }
    } else {
        let basename = last_segment(file);
        if basename.len() == 0 || project.len() == 0 {
            "What does `"@ + name + "` do and what depends on it?"@
        } else {
            "What does `"@ + name + "` in `"@ + basename + "` (`"@ + project + "` project) do and what depends on it?"@
        }
    }
}

/// The query for a clicked node with this label, id, kind and file.
pub fn node_query(label: &str, id: &str, kind: &str, file: &str) -> (r: String)
    ensures
        r@ == node_query_spec(label@, id@, kind@, file@),
{
    let lv = chars_of(label);
    let name = if lv.len() == 0 { chars_of(id) } else { lv };
    let fv = chars_of(file);
    let project = match find_vec(&fv, &chars_of("/")) {
        Some(i) => {
            proof {
                crate::strings::lemma_find(fv@, "/"@);
            }
            slice(&fv, 0, i)
        },
        None => fv.clone(),
    };
    assert(project@ == first_segment(file@));
    let mut out: Vec<char> = Vec::new();
    if eq(&chars_of(kind), &chars_of("file")) {
        if project.len() == 0 {
            extend_str(&mut out, "What is the role of `");
            extend(&mut out, &name);
            extend_str(&mut out, "` in the architecture of this project?");
        } else {
            extend_str(&mut out, "What is the role of `");
            extend(&mut out, &name);
            extend_str(&mut out, "` in the architecture of the `");
            extend(&mut out, &project);
            extend_str(&mut out, "` project?");
        }
    } else {
        let basename = match rfind_char_vec(&fv, '/') {
            Some(i) => slice(&fv, i + 1, fv.len()),
            None => fv.clone(),
        };
        if basename.len() == 0 || project.len() == 0 {
            extend_str(&mut out, "What does `");
            extend(&mut out, &name);
            extend_str(&mut out, "` do and what depends on it?");
        } else {
            extend_str(&mut out, "What does `");
            extend(&mut out, &name);
            extend_str(&mut out, "` in `");
            extend(&mut out, &basename);
            extend_str(&mut out, "` (`");
            extend(&mut out, &project);
            extend_str(&mut out, "` project) do and what depends on it?");
        }
    }
    string_of(&out)
}

} // verus!
