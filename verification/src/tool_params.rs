//! What the MCP tools make of their parameters before they touch the
//! store: required text trimmed and refused when blank, the query an
//! overview runs, the intent a search starts from, and which sides of a
//! call-graph answer are listed.
use vstd::prelude::*;
use crate::augment::GraphDirection;
use crate::intent::{QueryIntent, comparison_cue, pre_classify_comparison};
use crate::strings::{chars_of, string_of, trim, trim_vec};
use crate::text::opt_str;

verus! {

/// A required text parameter, trimmed: `None` when nothing but whitespace
/// was given, which the tool answers with an invalid-parameter error.
pub fn required_param(raw: &str) -> (r: Option<String>)
    ensures
        match r {
            Some(s) => s@ == trim(raw@) && s@.len() > 0,
            None => trim(raw@).len() == 0,
        },
{
    let t = trim_vec(&chars_of(raw));
    if t.len() == 0 {
        None
    } else {
        Some(string_of(&t))
    }
}

/// The query an overview searches with: the trimmed topic, or a general
/// one when no topic (or a blank one) was given.
pub open spec fn overview_query_spec(topic: Option<Seq<char>>) -> Seq<char> {
    match topic {
        Some(t) if trim(t).len() > 0 => trim(t),
        _ => "project overview architecture"@,
    }
}

/// The query `code_rag_overview` runs under the forced overview intent.
pub fn overview_query(topic: Option<&str>) -> (r: String)
    ensures
        r@ == overview_query_spec(opt_str(topic)),
{
    match topic {
        Some(t) => {
            let v = trim_vec(&chars_of(t));
            if v.len() > 0 {
                return string_of(&v);
            }
        },
        None => {},
    }
    "project overview architecture".to_string()
}

/// The intent a search runs under when it is settled before the embedding
/// classifier is asked: one the caller forces, else a comparison cue in
/// the query. `None` leaves the choice to the classifier.
pub fn search_intent(forced: Option<QueryIntent>, query: &str) -> (r: Option<QueryIntent>)
    ensures
        r == match forced {
            Some(i) => Some(i),
            None => comparison_cue(query@),
        },
{
    match forced {
        Some(i) => Some(i),
        None => pre_classify_comparison(query),
    }
}

/// The direction a `code_rag_graph` caller may ask for.
#[derive(Debug, Clone, Copy, PartialEq, Eq, Structural)]
pub enum GraphDirectionHint {
    Callers,
    Callees,
    Both,
}

/// The traversal a hint asks for; no hint means both directions.
pub fn hint_direction(hint: Option<GraphDirectionHint>) -> (r: GraphDirection)
    ensures
        r == match hint {
            Some(GraphDirectionHint::Callers) => GraphDirection::Callers,
            Some(GraphDirectionHint::Callees) => GraphDirection::Callees,
            _ => GraphDirection::Both,
        },
{
    match hint {
        Some(GraphDirectionHint::Callers) => GraphDirection::Callers,
        Some(GraphDirectionHint::Callees) => GraphDirection::Callees,
        _ => GraphDirection::Both,
    }
}

/// Whether a graph answer in direction `dir` lists the target's callers:
/// all but a callees-only answer do.
pub fn lists_callers(dir: &GraphDirection) -> (r: bool)
    ensures
        r == !(dir is Callees),
{
    match dir {
        GraphDirection::Callees => false,
        _ => true,
    }
}

/// Whether a graph answer in direction `dir` lists the target's callees:
/// all but a callers-only answer do.
pub fn lists_callees(dir: &GraphDirection) -> (r: bool)
    ensures
        r == !(dir is Callers),
{
    match dir {
        GraphDirection::Callers => false,
        _ => true,
    }
}

} // verus!
