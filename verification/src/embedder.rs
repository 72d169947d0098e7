//! The texts handed to the embedding model for each kind of chunk, and the
//! embedder's error type.
use vstd::prelude::*;
use crate::strings::{chars_of, extend, extend_str, join, join_strings, join_vec, string_of, strings_view};
use crate::text::opt_str;

verus! {

/// Why embedding failed.
#[derive(Debug, Clone, PartialEq)]
pub enum EmbedError {
    /// The model could not be initialised.
    Init(String),
    /// Generating embeddings failed.
    Embed(String),
    /// The model's lock was poisoned by an earlier panic.
    Poisoned,
}

impl EmbedError {
    pub open spec fn message_spec(&self) -> Seq<char> {
        match self {
            EmbedError::Init(s) => "failed to initialize embedding model: "@ + s@,
            EmbedError::Embed(s) => "embedding generation failed: "@ + s@,
            EmbedError::Poisoned => "embedder mutex poisoned (a prior call panicked)"@,
        }
    }

    /// The error's human-readable message.
    pub fn message(&self) -> (r: String)
        ensures
            r@ == self.message_spec(),
    {
        let mut out: Vec<char> = Vec::new();
        match self {
            EmbedError::Init(s) => {
                extend_str(&mut out, "failed to initialize embedding model: ");
                extend_str(&mut out, s.as_str());
            },
            EmbedError::Embed(s) => {
                extend_str(&mut out, "embedding generation failed: ");
                extend_str(&mut out, s.as_str());
            },
            EmbedError::Poisoned => {
                extend_str(&mut out, "embedder mutex poisoned (a prior call panicked)");
            },
        }
        string_of(&out)
    }
}

/// `text (language)`.
pub open spec fn labelled(text: Seq<char>, language: Seq<char>) -> Seq<char> {
    text + " ("@ + language + ")"@
}

/// The embedding text of a code chunk, one part per line: the signature
/// (or, without one, the identifier) labelled with the language; the
/// docstring when non-empty; the code; and `Calls: a, b` when it calls
/// anything.
pub open spec fn code_embedding_text(
    identifier: Seq<char>,
    language: Seq<char>,
    docstring: Option<Seq<char>>,
    code: Seq<char>,
    calls: Seq<Seq<char>>,
    signature: Option<Seq<char>>,
) -> Seq<char> {
    let head = match signature {
        Some(sig) => labelled(sig, language),
        None => labelled(identifier, language),
    };
    let with_doc = match docstring {
        Some(d) => if d.len() > 0 {
            seq![head, d]
        } else {
            seq![head]
        },
        None => seq![head],
    };
    let with_code = with_doc.push(code);
    let parts = if calls.len() > 0 {
        with_code.push("Calls: "@ + join(calls, ", "@))
    } else {
        with_code
    };
    join(parts, "\n"@)
}

fn labelled_vec(text: &str, language: &str) -> (r: Vec<char>)
    ensures
        r@ == labelled(text@, language@),
{
    let mut out = chars_of(text);
    extend_str(&mut out, " (");
    extend_str(&mut out, language);
    extend_str(&mut out, ")");
    out
}

/// Format a code chunk for embedding.
pub fn format_code_for_embedding(
    identifier: &str,
    language: &str,
    docstring: Option<&str>,
    code: &str,
    calls: &[String],
    signature: Option<&str>,
) -> (r: String)
    ensures
        r@ == code_embedding_text(
            identifier@,
            language@,
            opt_str(docstring),
            code@,
            strings_view(calls@),
            opt_str(signature),
        ),
{
    let head = match signature {
        Some(sig) => labelled_vec(sig, language),
        None => labelled_vec(identifier, language),
    };
    let mut parts: Vec<Vec<char>> = Vec::new();
    parts.push(head);
    let ghost mut expect: Seq<Seq<char>> = seq![parts@[0]@];
    assert(parts@.map_values(|w: Vec<char>| w@) =~= expect);
    if let Some(doc) = docstring {
        let d = chars_of(doc);
        if d.len() > 0 {
            parts.push(d);
            proof {
                expect = expect.push(doc@);
            }
            assert(parts@.map_values(|w: Vec<char>| w@) =~= expect);
        }
    }
    parts.push(chars_of(code));
    proof {
        expect = expect.push(code@);
    }
    assert(parts@.map_values(|w: Vec<char>| w@) =~= expect);
    if calls.len() > 0 {
        let mut line = chars_of("Calls: ");
        extend(&mut line, &join_strings(calls, ", "));
        parts.push(line);
        proof {
            expect = expect.push("Calls: "@ + join(strings_view(calls@), ", "@));
        }
        assert(parts@.map_values(|w: Vec<char>| w@) =~= expect);
    }
    proof {
        let h = match opt_str(signature) {
            Some(sig) => labelled(sig, language@),
            None => labelled(identifier@, language@),
        };
        let with_doc = match opt_str(docstring) {
            Some(d) => if d.len() > 0 {
                seq![h, d]
            } else {
                seq![h]
            },
            None => seq![h],
        };
        let with_code = with_doc.push(code@);
        let full = if strings_view(calls@).len() > 0 {
            with_code.push("Calls: "@ + join(strings_view(calls@), ", "@))
        } else {
            with_code
        };
        assert(expect =~= full);
    }
    string_of(&join_vec(&parts, &chars_of("\n")))
}

/// The embedding text of a signature: the signature labelled with the
/// language, then the docstring on its own line when non-empty; nothing
/// without a signature.
pub open spec fn signature_embedding_text(
    signature: Option<Seq<char>>,
    language: Seq<char>,
    docstring: Option<Seq<char>>,
) -> Option<Seq<char>> {
    match signature {
        None => None,
        Some(sig) => Some(
            match docstring {
                Some(d) => if d.len() > 0 {
                    labelled(sig, language) + "\n"@ + d
                } else {
                    labelled(sig, language)
                },
                None => labelled(sig, language),
            },
        ),
    }
}

/// Format a signature for embedding; `None` when there is no signature.
pub fn format_signature_for_embedding(signature: Option<&str>, language: &str, docstring: Option<&str>) -> (r:
    Option<String>)
    ensures
        match r {
            Some(s) => signature_embedding_text(opt_str(signature), language@, opt_str(docstring)) == Some(s@),
            None => signature_embedding_text(opt_str(signature), language@, opt_str(docstring)) is None,
        },
{
    let sig = match signature {
        Some(s) => s,
        None => {
            return None;
        },
    };
    let mut out = labelled_vec(sig, language);
    if let Some(doc) = docstring {
        let d = chars_of(doc);
        if d.len() > 0 {
            extend_str(&mut out, "\n");
            extend(&mut out, &d);
        }
    }
    Some(string_of(&out))
}

/// Format a README chunk for embedding: `Project: {name}` then the content.
pub fn format_readme_for_embedding(project_name: &str, content: &str) -> (r: String)
    ensures
        r@ == "Project: "@ + project_name@ + "\n"@ + content@,
{
    let mut out = chars_of("Project: ");
    extend_str(&mut out, project_name);
    extend_str(&mut out, "\n");
    extend_str(&mut out, content);
    string_of(&out)
}

/// The embedding text of a crate: `Crate: {name}`, the description if any,
/// and `Dependencies: a, b` when it has any, one per line.
pub open spec fn crate_embedding_text(name: Seq<char>, description: Option<Seq<char>>, deps: Seq<Seq<char>>) -> Seq<
    char,
> {
    let head = seq!["Crate: "@ + name];
    let with_desc = match description {
        Some(d) => head.push(d),
        None => head,
    };
    let parts = if deps.len() > 0 {
        with_desc.push("Dependencies: "@ + join(deps, ", "@))
    } else {
        with_desc
    };
    join(parts, "\n"@)
}

/// Format a crate chunk for embedding.
pub fn format_crate_for_embedding(crate_name: &str, description: Option<&str>, deps: &[String]) -> (r: String)
    ensures
        r@ == crate_embedding_text(crate_name@, opt_str(description), strings_view(deps@)),
{
    let mut first = chars_of("Crate: ");
    extend_str(&mut first, crate_name);
    let mut parts: Vec<Vec<char>> = Vec::new();
    parts.push(first);
    let ghost mut expect: Seq<Seq<char>> = seq!["Crate: "@ + crate_name@];
    assert(parts@.map_values(|w: Vec<char>| w@) =~= expect);
    if let Some(desc) = description {
        parts.push(chars_of(desc));
        proof {
            expect = expect.push(desc@);
        }
        assert(parts@.map_values(|w: Vec<char>| w@) =~= expect);
    }
    if deps.len() > 0 {
        let mut line = chars_of("Dependencies: ");
        extend(&mut line, &join_strings(deps, ", "));
        parts.push(line);
        proof {
            expect = expect.push("Dependencies: "@ + join(strings_view(deps@), ", "@));
        }
        assert(parts@.map_values(|w: Vec<char>| w@) =~= expect);
    }
    proof {
        let head = seq!["Crate: "@ + crate_name@];
        let with_desc = match opt_str(description) {
            Some(d) => head.push(d),
            None => head,
        };
        let full = if strings_view(deps@).len() > 0 {
            with_desc.push("Dependencies: "@ + join(strings_view(deps@), ", "@))
        } else {
            with_desc
        };
        assert(expect =~= full);
    }
    string_of(&join_vec(&parts, &chars_of("\n")))
}

/// Format a module doc chunk for embedding: `Module: {name}` then the doc.
pub fn format_module_doc_for_embedding(module_name: &str, doc_content: &str) -> (r: String)
    ensures
        r@ == "Module: "@ + module_name@ + "\n"@ + doc_content@,
{
    let mut out = chars_of("Module: ");
    extend_str(&mut out, module_name);
    extend_str(&mut out, "\n");
    extend_str(&mut out, doc_content);
    string_of(&out)
}

} // verus!
