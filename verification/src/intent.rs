//! Query intents: parsing their names, the keyword pre-classifier for
//! comparisons, and the routing table from intent to retrieval limits.
use vstd::prelude::*;
use crate::config::RetrievalConfig;
use crate::strings::{SepKind, chars_of, contains, contains_lit, eq, extend_str, split_chars, split_chars_vec, string_of};
use crate::unicode::{lowercase, to_lowercase};

verus! {

/// Query intent categories.
#[derive(Debug, Clone, Copy, PartialEq, Eq, Hash, Structural)]
pub enum QueryIntent {
    /// "What does X do?", "Tell me about Y", "Overview of Z"
    Overview,
    /// "How does X work?", "Show me the implementation of Y"
    Implementation,
    /// "What calls X?", "How does A relate to B?"
    Relationship,
    /// "How does A compare to B?", "Differences between X and Y"
    Comparison,
}

/// The intent named exactly (case-sensitively) by `s`.
pub open spec fn intent_named(s: Seq<char>) -> Option<QueryIntent> {
    if s == "overview"@ {
        Some(QueryIntent::Overview)
    } else if s == "implementation"@ {
        Some(QueryIntent::Implementation)
    } else if s == "relationship"@ {
        Some(QueryIntent::Relationship)
    } else if s == "comparison"@ {
        Some(QueryIntent::Comparison)
    } else {
        None
    }
}

impl QueryIntent {
    /// Parse an intent name; an unknown name is an error reading
    /// `"unknown intent: {s}"`.
    pub fn parse(s: &str) -> (r: Result<QueryIntent, String>)
        ensures
            match r {
                Ok(i) => intent_named(s@) == Some(i),
                Err(msg) => intent_named(s@) is None && msg@ == "unknown intent: "@ + s@,
            },
    {
        let v = chars_of(s);
        if eq(&v, &chars_of("overview")) {
            Ok(QueryIntent::Overview)
        } else if eq(&v, &chars_of("implementation")) {
            Ok(QueryIntent::Implementation)
        } else if eq(&v, &chars_of("relationship")) {
            Ok(QueryIntent::Relationship)
        } else if eq(&v, &chars_of("comparison")) {
            Ok(QueryIntent::Comparison)
        } else {
            let mut msg: Vec<char> = Vec::new();
            extend_str(&mut msg, "unknown intent: ");
            extend_str(&mut msg, s);
            Err(string_of(&msg))
        }
    }
}

/// The snake_case name of an intent, as it is serialized.
pub open spec fn intent_name(i: QueryIntent) -> Seq<char> {
    match i {
        QueryIntent::Overview => "overview"@,
        QueryIntent::Implementation => "implementation"@,
        QueryIntent::Relationship => "relationship"@,
        QueryIntent::Comparison => "comparison"@,
    }
}

impl QueryIntent {
    /// The intent's snake_case name (its serialized form).
    pub fn name(&self) -> (r: &'static str)
        ensures
            r@ == intent_name(*self),
    {
        match self {
            QueryIntent::Overview => "overview",
            QueryIntent::Implementation => "implementation",
            QueryIntent::Relationship => "relationship",
            QueryIntent::Comparison => "comparison",
        }
    }
}

/// An intent's name parses back to the intent, and every name that parses
/// is the name of what it parses to.
pub proof fn lemma_intent_name_round_trip(i: QueryIntent, s: Seq<char>)
    ensures
        intent_named(intent_name(i)) == Some(i),
        intent_named(s) matches Some(j) ==> s == intent_name(j),
{
    reveal_strlit("overview");
    reveal_strlit("implementation");
    reveal_strlit("relationship");
    reveal_strlit("comparison");
    assert("overview"@.len() == 8 && "implementation"@.len() == 14);
    assert("relationship"@.len() == 12 && "comparison"@.len() == 10);
}

impl std::str::FromStr for QueryIntent {
    type Err = String;

    fn from_str(s: &str) -> (r: Result<Self, Self::Err>)
        ensures
            match r {
                Ok(i) => intent_named(s@) == Some(i),
                Err(msg) => intent_named(s@) is None && msg@ == "unknown intent: "@ + s@,
            },
    {
        QueryIntent::parse(s)
    }
}

// ---------------------------------------------------------------------------
// Keyword pre-classifier
// ---------------------------------------------------------------------------

/// Hard override to `Comparison` for unambiguous comparison cues in the
/// lowercased query, guarded against idioms ("difference it makes") and
/// "vs" inside identifier or file tokens.
pub open spec fn comparison_cue(query: Seq<char>) -> Option<QueryIntent> {
    let q = lowercase(query);
    if contains(q, "difference this makes"@) || contains(q, "difference that makes"@) || contains(
        q,
        "difference it makes"@,
    ) {
        None
    } else {
        let token_vs = contains(q, "_vs_"@) || contains(q, "_vs."@) || contains(q, "-vs-"@);
        let toks = split_chars(q, SepKind::NonAlphanumeric);
        let has_differ = toks.contains("differ"@) || toks.contains("differs"@);
        let strong = contains(q, "difference between"@) || contains(q, "differences between"@)
            || contains(q, " differ from "@) || has_differ || contains(q, "compare "@) || (contains(
            q,
            " vs "@,
        ) && !token_vs) || (contains(q, " vs. "@) && !token_vs);
        if strong {
            Some(QueryIntent::Comparison)
        } else {
            None
        }
    }
}

fn has_differ_token(q: &Vec<char>) -> (r: bool)
    ensures
        r == (split_chars(q@, SepKind::NonAlphanumeric).contains("differ"@) || split_chars(
            q@,
            SepKind::NonAlphanumeric,
        ).contains("differs"@)),
{
    let parts = split_chars_vec(q, SepKind::NonAlphanumeric);
    let ghost pv = parts@.map_values(|w: Vec<char>| w@);
    let a = chars_of("differ");
    let b = chars_of("differs");
    let mut i: usize = 0;
    while i < parts.len()
        invariant
            i <= parts.len(),
            pv == parts@.map_values(|w: Vec<char>| w@),
            pv == split_chars(q@, SepKind::NonAlphanumeric),
            a@ == "differ"@,
            b@ == "differs"@,
            forall|j: int| 0 <= j < i ==> pv[j] != "differ"@ && pv[j] != "differs"@,
        decreases parts.len() - i,
    {
        if eq(&parts[i], &a) || eq(&parts[i], &b) {
            assert(pv[i as int] == parts@[i as int]@);
            return true;
        }
        i += 1;
    }
    false
}

/// Keyword pre-classifier: `Some(Comparison)` for a dominant comparison
/// cue, `None` to defer to embedding-based classification.
pub fn pre_classify_comparison(query: &str) -> (r: Option<QueryIntent>)
    ensures
        r == comparison_cue(query@),
{
    let lower = to_lowercase(query);
    let q = chars_of(lower.as_str());
    if contains_lit(&q, "difference this makes") || contains_lit(&q, "difference that makes")
        || contains_lit(&q, "difference it makes") {
        return None;
    }
    let token_vs = contains_lit(&q, "_vs_") || contains_lit(&q, "_vs.") || contains_lit(&q, "-vs-");
    let has_differ = has_differ_token(&q);
    let strong_cue = contains_lit(&q, "difference between") || contains_lit(&q, "differences between")
        || contains_lit(&q, " differ from ") || has_differ || contains_lit(&q, "compare ") || (
    contains_lit(&q, " vs ") && !token_vs) || (contains_lit(&q, " vs. ") && !token_vs);
    if strong_cue {
        Some(QueryIntent::Comparison)
    } else {
        None
    }
}

// ---------------------------------------------------------------------------
// Routing
// ---------------------------------------------------------------------------

/// Declarative routing table: retrieval limits per intent, and a default.
#[derive(Debug, Clone)]
pub struct RoutingTable {
    /// (intent, limits) routes; the first route of an intent applies.
    pub routes: Vec<(QueryIntent, RetrievalConfig)>,
    pub default: RetrievalConfig,
}

/// The limits of the first route for `intent`, else the default's.
pub open spec fn route_spec(
    routes: Seq<(QueryIntent, RetrievalConfig)>,
    default: RetrievalConfig,
    intent: QueryIntent,
) -> (usize, usize, usize, usize, usize, usize)
    decreases routes.len(),
{
    if routes.len() == 0 {
        default.limits()
    } else if routes[0].0 == intent {
        routes[0].1.limits()
    } else {
        route_spec(routes.drop_first(), default, intent)
    }
}

/// Routing picks the first route that names the intent, and falls back to
/// the table's default exactly when no route names it (so an empty table
/// always gives the default).
pub proof fn lemma_route_first_or_default(
    routes: Seq<(QueryIntent, RetrievalConfig)>,
    default: RetrievalConfig,
    intent: QueryIntent,
)
    ensures
        (forall|j: int| 0 <= j < routes.len() ==> (#[trigger] routes[j]).0 != intent) ==> route_spec(routes, default, intent)
            == default.limits(),
        forall|j: int|
            0 <= j < routes.len() && (#[trigger] routes[j]).0 == intent && (forall|k: int| 0 <= k < j ==> routes[k].0 != intent)
                ==> route_spec(routes, default, intent) == routes[j].1.limits(),
    decreases routes.len(),
{
    if routes.len() > 0 {
        let rest = routes.drop_first();
        lemma_route_first_or_default(rest, default, intent);
        if forall|j: int| 0 <= j < routes.len() ==> (#[trigger] routes[j]).0 != intent {
            assert forall|j: int| 0 <= j < rest.len() implies (#[trigger] rest[j]).0 != intent by {
                assert(rest[j] == routes[j + 1]);
            }
        }
        assert forall|j: int|
            0 <= j < routes.len() && (#[trigger] routes[j]).0 == intent && (forall|k: int| 0 <= k < j ==> routes[k].0 != intent)
                implies route_spec(routes, default, intent) == routes[j].1.limits() by {
            if j > 0 {
                assert(routes[0].0 != intent);
                assert(rest[j - 1] == routes[j]);
                assert forall|k: int| 0 <= k < j - 1 implies rest[k].0 != intent by {
                    assert(rest[k] == routes[k + 1]);
                }
            }
        }
    }
}

fn limits_of(code: usize, readme: usize, krate: usize, module_doc: usize) -> (r: RetrievalConfig)
    ensures
        r.limits() == (code, readme, krate, module_doc, 0usize, 0usize),
{
    RetrievalConfig {
        code_limit: code,
        readme_limit: readme,
        crate_limit: krate,
        module_doc_limit: module_doc,
        folder_limit: 0,
        file_limit: 0,
    }
}

impl Default for RoutingTable {
    /// Code limit 5 for every intent; supplementary context differs per
    /// intent; folder and file limits stay at their default of zero.
    fn default() -> (r: Self)
        ensures
            route_spec(r.routes@, r.default, QueryIntent::Overview) == (5usize, 3usize, 3usize, 3usize, 0usize, 0usize),
            route_spec(r.routes@, r.default, QueryIntent::Implementation) == (5usize, 1usize, 1usize, 2usize, 0usize, 0usize),
            route_spec(r.routes@, r.default, QueryIntent::Relationship) == (5usize, 1usize, 2usize, 2usize, 0usize, 0usize),
            route_spec(r.routes@, r.default, QueryIntent::Comparison) == (5usize, 2usize, 3usize, 2usize, 0usize, 0usize),
            r.default.limits() == (5usize, 2usize, 3usize, 3usize, 0usize, 0usize),
    {
        let mut routes: Vec<(QueryIntent, RetrievalConfig)> = Vec::new();
        routes.push((QueryIntent::Overview, limits_of(5, 3, 3, 3)));
        routes.push((QueryIntent::Implementation, limits_of(5, 1, 1, 2)));
        routes.push((QueryIntent::Relationship, limits_of(5, 1, 2, 2)));
        routes.push((QueryIntent::Comparison, limits_of(5, 2, 3, 2)));
        let r = RoutingTable { routes, default: RetrievalConfig::default() };
        proof {
            reveal_with_fuel(route_spec, 5);
            let s = r.routes@;
            assert(s.drop_first().drop_first().drop_first().drop_first().len() == 0);
            assert(s.drop_first()[0] == s[1]);
            assert(s.drop_first().drop_first()[0] == s[2]);
            assert(s.drop_first().drop_first().drop_first()[0] == s[3]);
        }
        r
    }
}

/// Retrieval limits for a classified intent: its first route, or the
/// table's default when it has none.
pub fn route(intent: QueryIntent, table: &RoutingTable) -> (r: RetrievalConfig)
    ensures
        r.limits() == route_spec(table.routes@, table.default, intent),
{
    let ghost rs = table.routes@;
    let mut i: usize = 0;
    assert(rs.skip(0) =~= rs);
    while i < table.routes.len()
        invariant
            i <= table.routes.len(),
            rs == table.routes@,
            route_spec(rs, table.default, intent) == route_spec(rs.skip(i as int), table.default, intent),
        decreases table.routes.len() - i,
    {
        assert(rs.skip(i as int)[0] == rs[i as int]);
        assert(rs.skip(i as int).drop_first() =~= rs.skip(i + 1));
        if table.routes[i].0 == intent {
            return table.routes[i].1.copy();
        }
        i += 1;
    }
    table.default.copy()
}

} // verus!
