//! Decisions of the retrieval pipeline that do not depend on scores: when
//! graph augmentation runs, how graph-confirmed chunks are protected from
//! the reranker, which graph chunks a merge appends, and which project a
//! comparison query is confined to.
use vstd::prelude::*;
use crate::augment::GraphDirection;
use crate::intent::QueryIntent;
use crate::strings::strings_view;

verus! {

/// Graph augmentation runs for relationship and implementation queries when
/// there are call edges.
pub open spec fn augments(intent: QueryIntent, has_edges: bool) -> bool {
    has_edges && (intent == QueryIntent::Relationship || intent == QueryIntent::Implementation)
}

/// Whether a query of this intent is augmented with call-graph neighbours.
pub fn uses_graph_augmentation(intent: QueryIntent, has_edges: bool) -> (r: bool)
    ensures
        r == augments(intent, has_edges),
{
    has_edges && (matches!(intent, QueryIntent::Relationship) || matches!(intent, QueryIntent::Implementation))
}

/// How graph-confirmed code chunks are kept from being demoted.
#[derive(Debug, Clone, Copy, PartialEq, Eq, Structural)]
pub struct GraphProtection {
    /// The query names a direction ("what calls X") and the graph confirmed
    /// chunks: those chunks are structural hits.
    pub explicit_structural: bool,
    /// Structural hits bypass the reranker and lead the code results.
    pub route_around_reranker: bool,
    /// At most this many routed chunks are kept: one code slot stays free.
    pub max_graph_slots: usize,
    /// The reranker keeps this many code chunks instead of the code limit,
    /// so that a soft reserve can rescue demoted graph chunks.
    pub code_keep_override: Option<usize>,
    /// The graph chunks a soft reserve keeps at least (two for relationship
    /// queries, one otherwise); `None` when no soft reserve applies.
    pub soft_reserve_min_slots: Option<usize>,
}

/// A soft reserve applies to an ambiguous-direction augmentation that
/// found graph chunks.
pub open spec fn soft_reserve(explicit: bool, has_graph_hits: bool, intent: QueryIntent) -> bool {
    !explicit && has_graph_hits && (intent == QueryIntent::Relationship || intent == QueryIntent::Implementation)
}

/// The protection a retrieval gives graph-confirmed chunks.
pub open spec fn protection_spec(
    has_graph_hits: bool,
    direction: GraphDirection,
    intent: QueryIntent,
    should_rerank: bool,
    code_limit: usize,
) -> GraphProtection {
    let explicit = has_graph_hits && direction != GraphDirection::Both;
    let soft = soft_reserve(explicit, has_graph_hits, intent);
    GraphProtection {
        explicit_structural: explicit,
        route_around_reranker: explicit && should_rerank,
        max_graph_slots: if code_limit == 0 { 0 } else { (code_limit - 1) as usize },
        code_keep_override: if soft { Some((code_limit + 5) as usize) } else { None },
        soft_reserve_min_slots: if soft {
            Some(if intent == QueryIntent::Relationship { 2usize } else { 1usize })
        } else {
            None
        },
    }
}

/// Plan the protection of graph-confirmed chunks: queries with an explicit
/// direction route them around the reranker; ambiguous ones over-retain
/// five more code chunks and reserve slots for them.
pub fn plan_graph_protection(
    has_graph_hits: bool,
    direction: &GraphDirection,
    intent: QueryIntent,
    should_rerank: bool,
    code_limit: usize,
) -> (r: GraphProtection)
    requires
        soft_reserve(has_graph_hits && *direction != GraphDirection::Both, has_graph_hits, intent) ==> code_limit + 5
            <= usize::MAX,
    ensures
        r == protection_spec(has_graph_hits, *direction, intent, should_rerank, code_limit),
{
    let both = match direction {
        GraphDirection::Both => true,
        _ => false,
    };
    let explicit = has_graph_hits && !both;
    let relationship = matches!(intent, QueryIntent::Relationship);
    let soft = !explicit && has_graph_hits && (relationship || matches!(intent, QueryIntent::Implementation));
    GraphProtection {
        explicit_structural: explicit,
        route_around_reranker: explicit && should_rerank,
        max_graph_slots: code_limit.saturating_sub(1),
        code_keep_override: if soft { Some(code_limit + 5) } else { None },
        soft_reserve_min_slots: if soft {
            Some(if relationship { 2 } else { 1 })
        } else {
            None
        },
    }
}

/// Code slots left for reranked chunks after the routed graph chunks.
pub fn semantic_slots(code_limit: usize, routed: usize) -> (r: usize)
    ensures
        r == if routed <= code_limit { code_limit - routed } else { 0 },
{
    code_limit.saturating_sub(routed)
}

// ---------------------------------------------------------------------------
// Merging graph chunks
// ---------------------------------------------------------------------------

/// Positions (in order) of the graph chunks whose id is not among the
/// existing chunks' ids.
pub open spec fn fresh_positions(existing: Seq<Seq<char>>, graph: Seq<Seq<char>>) -> Seq<int>
    decreases graph.len(),
{
    if graph.len() == 0 {
        seq![]
    } else {
        let p = fresh_positions(existing, graph.drop_last());
        if existing.contains(graph.last()) {
            p
        } else {
            p.push(graph.len() - 1)
        }
    }
}

fn contains_id(ids: &[String], id: &String) -> (r: bool)
    ensures
        r == strings_view(ids@).contains(id@),
{
    let mut i: usize = 0;
    while i < ids.len()
        invariant
            i <= ids.len(),
            forall|j: int| 0 <= j < i ==> strings_view(ids@)[j] != id@,
        decreases ids.len() - i,
    {
        if ids[i] == *id {
            assert(strings_view(ids@)[i as int] == id@);
            return true;
        }
        i += 1;
    }
    false
}

/// Which graph-resolved chunks a merge appends to the vector results: the
/// positions, in order, of those whose chunk id is not already among the
/// existing results (existing chunks always win a collision).
pub fn graph_chunks_to_append(existing_ids: &[String], graph_ids: &[String]) -> (r: Vec<usize>)
    ensures
        r@.map_values(|p: usize| p as int) == fresh_positions(strings_view(existing_ids@), strings_view(graph_ids@)),
{
    let ghost ex = strings_view(existing_ids@);
    let ghost gr = strings_view(graph_ids@);
    let mut r: Vec<usize> = Vec::new();
    let mut i: usize = 0;
    while i < graph_ids.len()
        invariant
            i <= graph_ids.len(),
            ex == strings_view(existing_ids@),
            gr == strings_view(graph_ids@),
            r@.map_values(|p: usize| p as int) == fresh_positions(ex, gr.take(i as int)),
        decreases graph_ids.len() - i,
    {
        assert(gr.take(i + 1).drop_last() =~= gr.take(i as int));
        assert(gr.take(i + 1).last() == gr[i as int]);
        let ghost before = r@;
        if !contains_id(existing_ids, &graph_ids[i]) {
            r.push(i);
            assert(r@.map_values(|p: usize| p as int) =~= before.map_values(|p: usize| p as int).push(i as int));
        }
        i += 1;
    }
    assert(gr.take(graph_ids.len() as int) =~= gr);
    r
}

// ---------------------------------------------------------------------------
// The project a comparison is confined to
// ---------------------------------------------------------------------------

/// How often `p` occurs in `s`.
pub open spec fn occurrences(s: Seq<Seq<char>>, p: Seq<char>) -> nat
    decreases s.len(),
{
    if s.len() == 0 {
        0
    } else {
        occurrences(s.drop_last(), p) + if s.last() == p {
            1nat
        } else {
            0nat
        }
    }
}

/// The top hits a vote looks at: the first five.
pub open spec fn ballot(s: Seq<Seq<char>>) -> Seq<Seq<char>> {
    if s.len() <= 5 {
        s
    } else {
        s.take(5)
    }
}

/// `p` wins the vote over `t`: it is the project of the hit at `k`, no
/// project occurs more often, and every earlier hit's project occurs less
/// often.
pub open spec fn wins_vote(t: Seq<Seq<char>>, k: int, p: Seq<char>) -> bool {
    &&& 0 <= k < t.len()
    &&& t[k] == p
    &&& forall|j: int| 0 <= j < t.len() ==> occurrences(t, #[trigger] t[j]) <= occurrences(t, p)
    &&& forall|j: int| 0 <= j < k ==> occurrences(t, #[trigger] t[j]) < occurrences(t, p)
}

fn occurrences_of(t: &Vec<String>, p: &String) -> (r: usize)
    ensures
        r == occurrences(strings_view(t@), p@),
{
    let ghost tv = strings_view(t@);
    let mut n: usize = 0;
    let mut i: usize = 0;
    while i < t.len()
        invariant
            i <= t.len(),
            tv == strings_view(t@),
            n == occurrences(tv.take(i as int), p@),
            n <= i,
        decreases t.len() - i,
    {
        assert(tv.take(i + 1).drop_last() =~= tv.take(i as int));
        assert(tv.take(i + 1).last() == tv[i as int]);
        if t[i] == *p {
            n += 1;
        }
        i += 1;
    }
    assert(tv.take(t.len() as int) =~= tv);
    n
}

/// The project most of the top five hits (by project name, best first)
/// belong to, the earliest such when several tie; `None` without hits.
pub fn dominant_project(top_projects: &[String]) -> (r: Option<String>)
    ensures
        r is None <==> top_projects@.len() == 0,
        r matches Some(p) ==> exists|k: int| #[trigger] wins_vote(ballot(strings_view(top_projects@)), k, p@),
{
    let n: usize = if top_projects.len() <= 5 { top_projects.len() } else { 5 };
    let mut t: Vec<String> = Vec::new();
    let mut i: usize = 0;
    while i < n
        invariant
            i <= n,
            n <= top_projects.len(),
            n == ballot(strings_view(top_projects@)).len(),
            strings_view(t@) == strings_view(top_projects@).take(i as int),
        decreases n - i,
    {
        let ghost before = strings_view(t@);
        let x = top_projects[i].clone();
        assert(x@ == strings_view(top_projects@)[i as int]);
        t.push(x);
        assert(strings_view(top_projects@).take(i + 1) =~= before.push(x@));
        assert(strings_view(t@) =~= before.push(x@));
        i += 1;
    }
    let ghost tv = strings_view(t@);
    assert(tv =~= ballot(strings_view(top_projects@)));
    if n == 0 {
        return None;
    }
    let mut best: usize = 0;
    let mut best_count: usize = occurrences_of(&t, &t[0]);
    let mut j: usize = 1;
    while j < n
        invariant
            1 <= j <= n,
            n == t.len(),
            tv == strings_view(t@),
            best < j,
            best_count == occurrences(tv, tv[best as int]),
            forall|m: int| 0 <= m < j ==> occurrences(tv, #[trigger] tv[m]) <= best_count,
            forall|m: int| 0 <= m < best ==> occurrences(tv, #[trigger] tv[m]) < best_count,
        decreases n - j,
    {
        let c = occurrences_of(&t, &t[j]);
        if c > best_count {
            best = j;
            best_count = c;
        }
        j += 1;
    }
    let winner = t[best].clone();
    let ghost wv = winner@;
    assert(wins_vote(tv, best as int, wv));
    let r = Some(winner);
    assert((r->0)@ == wv);
    r
}

/// Positions, in order, of the hits that belong to `target` (of every hit
/// when there is no target).
pub open spec fn project_positions(projects: Seq<Seq<char>>, target: Option<Seq<char>>) -> Seq<int>
    decreases projects.len(),
{
    if projects.len() == 0 {
        seq![]
    } else {
        let p = project_positions(projects.drop_last(), target);
        match target {
            Some(t) if projects.last() != t => p,
            _ => p.push(projects.len() - 1),
        }
    }
}

/// The hits a comparison keeps of one search, given each hit's project,
/// best first: the first `limit` of those in the target project (of all
/// hits when no target project was found), in order.
pub fn in_project_hits(projects: &[String], target: Option<&str>, limit: usize) -> (r: Vec<usize>)
    ensures
        r@.map_values(|p: usize| p as int) == ({
            let all = project_positions(strings_view(projects@), crate::text::opt_str(target));
            if all.len() <= limit { all } else { all.take(limit as int) }
        }),
{
    let ghost pv = strings_view(projects@);
    let ghost tv = crate::text::opt_str(target);
    let t: Option<String> = match target {
        Some(x) => Some(x.to_string()),
        None => None,
    };
    let mut r: Vec<usize> = Vec::new();
    let mut i: usize = 0;
    while i < projects.len()
        invariant
            i <= projects.len(),
            pv == strings_view(projects@),
            t matches Some(x) ==> tv == Some(x@),
            t is None ==> tv is None,
            r@.map_values(|p: usize| p as int) == project_positions(pv.take(i as int), tv),
        decreases projects.len() - i,
    {
        assert(pv.take(i + 1).drop_last() =~= pv.take(i as int));
        assert(pv.take(i + 1).last() == pv[i as int]);
        let keep = match &t {
            Some(x) => projects[i] == *x,
            None => true,
        };
        let ghost before = r@;
        if keep {
            r.push(i);
            assert(r@.map_values(|p: usize| p as int) =~= before.map_values(|p: usize| p as int).push(i as int));
        }
        i += 1;
    }
    assert(pv.take(projects.len() as int) =~= pv);
    let ghost full = r@.map_values(|p: usize| p as int);
    assert(full =~= project_positions(pv, tv));
    let n = r.len();
    r.truncate(limit);
    if limit <= n {
        assert(r@.map_values(|p: usize| p as int) =~= full.take(limit as int));
    }
    r
}

} // verus!
