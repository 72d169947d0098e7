//! Query-time graph augmentation: reading a traversal direction and a target
//! identifier out of a natural-language query, and choosing the chunks a
//! call-graph walk adds to the vector-search results.
use vstd::prelude::*;
use crate::strings::{
    SepKind, chars_of, contains, contains_lit, eq, find, find_vec, slice, string_of, strings_view,
    trim, trim_vec,
};
use crate::graph::{
    CallGraph, callees_spec, callers_spec, contains_string, lemma_callees_are_edges, lemma_callers_are_edges, pairs_view, step,
    Edge,
};
use crate::language::{char_bytes, utf8_len};
use crate::unicode::{lowercase, to_lowercase};

verus! {

/// Direction of a graph query, inferred from the query text.
#[derive(Debug, Clone, PartialEq)]
pub enum GraphDirection {
    /// "What calls X?" / "called by"
    Callers,
    /// "What does X call?" / "depends on" / "uses"
    Callees,
    /// A path between two chunks.
    Path(String, String),
    /// Both callers and callees.
    Both,
}

/// The direction a query asks for, read from its lowercased text. Queries
/// about paths, flows, traces or chains also get `Both`: two endpoints are
/// needed for a path.
pub open spec fn direction_of(query: Seq<char>) -> GraphDirection {
    let q = lowercase(query);
    if contains(q, "called by"@) || contains(q, "invoked by"@) {
        GraphDirection::Callers
    } else if contains(q, "what calls"@) || contains(q, "who calls"@) || (contains(q, "where is"@)
        && contains(q, "called"@)) {
        GraphDirection::Callers
    } else if (contains(q, "does"@) && contains(q, "call"@)) || contains(q, "depend on"@) || contains(
        q,
        "uses"@,
    ) {
        GraphDirection::Callees
    } else {
        GraphDirection::Both
    }
}

/// Detect the intended traversal direction from a query string.
pub fn detect_direction(query: &str) -> (r: GraphDirection)
    ensures
        r == direction_of(query@),
{
    let lower = to_lowercase(query);
    let q = chars_of(lower.as_str());
    if contains_lit(&q, "called by") || contains_lit(&q, "invoked by") {
        return GraphDirection::Callers;
    }
    if contains_lit(&q, "what calls") || contains_lit(&q, "who calls") || (contains_lit(&q, "where is")
        && contains_lit(&q, "called")) {
        return GraphDirection::Callers;
    }
    if (contains_lit(&q, "does") && contains_lit(&q, "call")) || contains_lit(&q, "depend on")
        || contains_lit(&q, "uses") {
        return GraphDirection::Callees;
    }
    GraphDirection::Both
}

// ---------------------------------------------------------------------------
// Target term extraction
// ---------------------------------------------------------------------------

/// Common English words, and words naming code units, skipped when looking
/// for a target identifier.
pub open spec fn is_stopword(w: Seq<char>) -> bool {
    ||| w == "the"@
    ||| w == "a"@
    ||| w == "an"@
    ||| w == "this"@
    ||| w == "that"@
    ||| w == "my"@
    ||| w == "our"@
    ||| w == "your"@
    ||| w == "its"@
    ||| w == "function"@
    ||| w == "method"@
    ||| w == "class"@
    ||| w == "struct"@
    ||| w == "module"@
    ||| w == "file"@
    ||| w == "code"@
    ||| w == "in"@
    ||| w == "of"@
    ||| w == "to"@
    ||| w == "from"@
    ||| w == "for"@
    ||| w == "with"@
}

fn eq_lit(w: &Vec<char>, lit: &str) -> (r: bool)
    ensures
        r == (w@ == lit@),
{
    let p = chars_of(lit);
    eq(w, &p)
}

fn is_stopword_vec(w: &Vec<char>) -> (r: bool)
    ensures
        r == is_stopword(w@),
{
    eq_lit(w, "the") || eq_lit(w, "a") || eq_lit(w, "an") || eq_lit(w, "this") || eq_lit(w, "that")
        || eq_lit(w, "my") || eq_lit(w, "our") || eq_lit(w, "your") || eq_lit(w, "its") || eq_lit(
        w,
        "function",
    ) || eq_lit(w, "method") || eq_lit(w, "class") || eq_lit(w, "struct") || eq_lit(w, "module")
        || eq_lit(w, "file") || eq_lit(w, "code") || eq_lit(w, "in") || eq_lit(w, "of") || eq_lit(
        w,
        "to",
    ) || eq_lit(w, "from") || eq_lit(w, "for") || eq_lit(w, "with")
}

/// The first piece, trimmed, that is non-empty and whose lowercase form is
/// not a stopword.
pub open spec fn first_meaningful(ps: Seq<Seq<char>>) -> Option<Seq<char>>
    decreases ps.len(),
{
    if ps.len() == 0 {
        None
    } else {
        let t = trim(ps[0]);
        if t.len() > 0 && !is_stopword(lowercase(t)) {
            Some(t)
        } else {
            first_meaningful(ps.drop_first())
        }
    }
}

/// The first meaningful token of `s`, splitting at whitespace, `?`, `.` and
/// backticks.
pub open spec fn first_token(s: Seq<char>) -> Option<Seq<char>> {
    first_meaningful(crate::strings::split_chars(s, SepKind::QueryPunct))
}

pub open spec fn opt_chars(o: Option<Vec<char>>) -> Option<Seq<char>> {
    match o {
        Some(v) => Some(v@),
        None => None,
    }
}

fn first_meaningful_token(s: &Vec<char>) -> (r: Option<Vec<char>>)
    ensures
        opt_chars(r) == first_token(s@),
{
    let parts = crate::strings::split_chars_vec(s, SepKind::QueryPunct);
    let ghost all = parts@.map_values(|w: Vec<char>| w@);
    let mut i: usize = 0;
    assert(all.skip(0) == all);
    while i < parts.len()
        invariant
            i <= parts.len(),
            all == parts@.map_values(|w: Vec<char>| w@),
            all == crate::strings::split_chars(s@, SepKind::QueryPunct),
            first_meaningful(all) == first_meaningful(all.skip(i as int)),
        decreases parts.len() - i,
    {
        assert(all.skip(i as int)[0] == parts@[i as int]@);
        assert(all.skip(i as int).drop_first() == all.skip(i + 1));
        let t = trim_vec(&parts[i]);
        if t.len() > 0 {
            let lt = crate::strings::lower_vec(&t);
            if !is_stopword_vec(&lt) {
                return Some(t);
            }
        }
        i += 1;
    }
    None
}

/// The character position of `s` at which byte `b` of its UTF-8 encoding
/// begins; `None` when `b` lies past the end or inside a character.
pub open spec fn char_at_byte(s: Seq<char>, b: int) -> Option<int> {
    if exists|j: int| 0 <= j <= s.len() && utf8_len(s.take(j)) == b {
        Some(choose|j: int| 0 <= j <= s.len() && utf8_len(s.take(j)) == b)
    } else {
        None
    }
}

/// The UTF-8 byte offset of character position `i` of `s`.
pub open spec fn byte_at(s: Seq<char>, i: int) -> int {
    utf8_len(s.take(i)) as int
}

/// A lookup in the lowercased query `q` whose byte offset is applied to
/// the query itself: `Some(None)` when `q` lacks `prefix`; `Some(Some(rest))`
/// with what follows the prefix's end offset in the query; `None` when that
/// offset does not begin a character of the query, where slicing fails.
pub open spec fn rest_after(query: Seq<char>, q: Seq<char>, prefix: Seq<char>) -> Option<Option<Seq<char>>> {
    match find(q, prefix) {
        Some(i) => match char_at_byte(query, byte_at(q, i) + utf8_len(prefix)) {
            Some(j) => Some(Some(query.skip(j))),
            None => None,
        },
        None => Some(None),
    }
}

/// The first meaningful token after `prefix` (see `rest_after`).
pub open spec fn token_after(query: Seq<char>, q: Seq<char>, prefix: Seq<char>) -> Option<Option<Seq<char>>> {
    match rest_after(query, q, prefix) {
        Some(Some(rest)) => Some(first_token(rest)),
        Some(None) => Some(None),
        None => None,
    }
}

/// "what does <target> call": the first meaningful token of the text
/// between the prefix and the next " call", that end found in the
/// lowercased rest and applied to the rest by byte offset.
pub open spec fn does_call_term(query: Seq<char>, q: Seq<char>) -> Option<Option<Seq<char>>> {
    match rest_after(query, q, "what does "@) {
        Some(Some(rest)) => {
            let lr = lowercase(rest);
            match find(lr, " call"@) {
                Some(end) => match char_at_byte(rest, byte_at(lr, end)) {
                    Some(k) => Some(first_token(trim(rest.take(k)))),
                    None => None,
                },
                None => Some(None),
            }
        },
        Some(None) => Some(None),
        None => None,
    }
}

/// The text between the first two backticks, when non-empty.
pub open spec fn backtick_term(query: Seq<char>) -> Option<Seq<char>> {
    match find(query, seq!['`']) {
        Some(start) => match find(query.skip(start + 1), seq!['`']) {
            Some(end) => if end > 0 {
                Some(query.subrange(start + 1, start + 1 + end))
            } else {
                None
            },
            None => None,
        },
        None => None,
    }
}

/// `a` unless it found nothing, then `b`; a failed slice stops there.
pub open spec fn or_else(a: Option<Option<Seq<char>>>, b: Option<Option<Seq<char>>>) -> Option<Option<Seq<char>>> {
    match a {
        Some(None) => b,
        _ => a,
    }
}

/// The target identifier of a query, tried in order: after "what calls",
/// "who calls" or "called by"; inside "what does … call"; after "callers
/// of" or "callees of"; else the first backtick-quoted text. `None` when a
/// byte offset taken from the lowercased text does not begin a character
/// of the text it is applied to (where slicing fails).
pub open spec fn target_term_outcome(query: Seq<char>) -> Option<Option<Seq<char>>> {
    let q = lowercase(query);
    or_else(
        token_after(query, q, "what calls "@),
        or_else(
            token_after(query, q, "who calls "@),
            or_else(
                token_after(query, q, "called by "@),
                or_else(
                    does_call_term(query, q),
                    or_else(
                        token_after(query, q, "callers of "@),
                        or_else(token_after(query, q, "callees of "@), Some(backtick_term(query))),
                    ),
                ),
            ),
        ),
    )
}

/// The target term of a query on which extraction succeeds.
pub open spec fn target_term(query: Seq<char>) -> Option<Seq<char>> {
    match target_term_outcome(query) {
        Some(t) => t,
        None => None,
    }
}

proof fn lemma_utf8_take_step(s: Seq<char>, j: int)
    requires
        0 <= j < s.len(),
    ensures
        utf8_len(s.take(j + 1)) == utf8_len(s.take(j)) + char_bytes(s[j]),
        char_bytes(s[j]) >= 1,
        char_bytes(s[j]) <= 4,
{
    assert(s.take(j + 1).drop_last() =~= s.take(j));
}

proof fn lemma_utf8_take_mono(s: Seq<char>, j1: int, j2: int)
    requires
        0 <= j1 < j2 <= s.len(),
    ensures
        utf8_len(s.take(j1)) < utf8_len(s.take(j2)),
    decreases j2 - j1,
{
    lemma_utf8_take_step(s, j2 - 1);
    if j1 < j2 - 1 {
        lemma_utf8_take_mono(s, j1, j2 - 1);
    }
}

proof fn lemma_char_at_byte_unique(s: Seq<char>, b: int, j: int)
    requires
        0 <= j <= s.len(),
        utf8_len(s.take(j)) == b,
    ensures
        char_at_byte(s, b) == Some(j),
{
    let k = choose|k: int| 0 <= k <= s.len() && utf8_len(s.take(k)) == b;
    if k < j {
        lemma_utf8_take_mono(s, k, j);
    } else if j < k {
        lemma_utf8_take_mono(s, j, k);
    }
}

fn char_len(c: char) -> (n: u128)
    ensures
        n == char_bytes(c),
{
    if (c as u32) < 0x80 {
        1
    } else if (c as u32) < 0x800 {
        2
    } else if (c as u32) < 0x10000 {
        3
    } else {
        4
    }
}

/// The UTF-8 byte offset of position `i` of `s`.
fn byte_offset(s: &Vec<char>, i: usize) -> (r: u128)
    requires
        i <= s.len(),
    ensures
        r == byte_at(s@, i as int),
        r <= 4 * i,
{
    let mut acc: u128 = 0;
    let mut k: usize = 0;
    while k < i
        invariant
            k <= i <= s.len(),
            acc == utf8_len(s@.take(k as int)),
            acc <= 4 * k,
        decreases i - k,
    {
        proof {
            lemma_utf8_take_step(s@, k as int);
        }
        acc = acc + char_len(s[k]);
        k += 1;
    }
    acc
}

/// The position of `s` at which byte `b` begins, if one does.
fn char_at_byte_vec(s: &Vec<char>, b: u128) -> (r: Option<usize>)
    ensures
        match r {
            Some(j) => char_at_byte(s@, b as int) == Some(j as int) && j <= s.len(),
            None => char_at_byte(s@, b as int) is None,
        },
{
    let mut acc: u128 = 0;
    let mut j: usize = 0;
    while j < s.len() && acc < b
        invariant
            j <= s.len(),
            acc == utf8_len(s@.take(j as int)),
            acc <= 4 * j,
            forall|k: int| 0 <= k < j ==> utf8_len(#[trigger] s@.take(k)) < b,
        decreases s.len() - j,
    {
        proof {
            lemma_utf8_take_step(s@, j as int);
            assert forall|k: int| 0 <= k < j + 1 implies utf8_len(#[trigger] s@.take(k)) < b by {
                if k < j {
                } else {
                    assert(k == j);
                }
            }
        }
        acc = acc + char_len(s[j]);
        j += 1;
    }
    if acc == b {
        proof {
            lemma_char_at_byte_unique(s@, b as int, j as int);
        }
        Some(j)
    } else {
        proof {
            assert forall|k: int| 0 <= k <= s.len() implies utf8_len(#[trigger] s@.take(k)) != b by {
                if k > j {
                    lemma_utf8_take_mono(s@, j as int, k);
                }
            }
        }
        None
    }
}

pub open spec fn opt2(o: Option<Option<Vec<char>>>) -> Option<Option<Seq<char>>> {
    match o {
        Some(Some(v)) => Some(Some(v@)),
        Some(None) => Some(None),
        None => None,
    }
}

fn rest_after_vec(query: &Vec<char>, q: &Vec<char>, prefix: &str) -> (r: Option<Option<Vec<char>>>)
    ensures
        opt2(r) == rest_after(query@, q@, prefix@),
{
    let p = chars_of(prefix);
    match find_vec(q, &p) {
        Some(i) => {
            proof {
                crate::strings::lemma_find(q@, p@);
                assert(crate::strings::occurs_at(q@, p@, i as int));
                assert(p@.take(p@.len() as int) =~= p@);
            }
            let b = byte_offset(q, i) + byte_offset(&p, p.len());
            match char_at_byte_vec(query, b) {
                Some(j) => Some(Some(slice(query, j, query.len()))),
                None => None,
            }
        },
        None => Some(None),
    }
}

fn token_after_vec(query: &Vec<char>, q: &Vec<char>, prefix: &str) -> (r: Option<Option<Vec<char>>>)
    ensures
        opt2(r) == token_after(query@, q@, prefix@),
{
    match rest_after_vec(query, q, prefix) {
        Some(Some(rest)) => Some(first_meaningful_token(&rest)),
        Some(None) => Some(None),
        None => None,
    }
}

fn does_call_term_vec(query: &Vec<char>, q: &Vec<char>) -> (r: Option<Option<Vec<char>>>)
    ensures
        opt2(r) == does_call_term(query@, q@),
{
    match rest_after_vec(query, q, "what does ") {
        Some(Some(rest)) => {
            let lr = crate::strings::lower_vec(&rest);
            let pat = chars_of(" call");
            match find_vec(&lr, &pat) {
                Some(end) => {
                    proof {
                        crate::strings::lemma_find(lr@, pat@);
                        assert(crate::strings::occurs_at(lr@, pat@, end as int));
                    }
                    match char_at_byte_vec(&rest, byte_offset(&lr, end)) {
                        Some(k) => {
                            let head = slice(&rest, 0, k);
                            assert(head@ == rest@.take(k as int));
                            let term = trim_vec(&head);
                            Some(first_meaningful_token(&term))
                        },
                        None => None,
                    }
                },
                None => Some(None),
            }
        },
        Some(None) => Some(None),
        None => None,
    }
}

fn backtick_term_vec(query: &Vec<char>) -> (r: Option<Vec<char>>)
    ensures
        opt_chars(r) == backtick_term(query@),
{
    let mut tick: Vec<char> = Vec::new();
    tick.push('`');
    assert(tick@ =~= seq!['`']);
    match find_vec(query, &tick) {
        Some(start) => {
            proof {
                crate::strings::lemma_find(query@, tick@);
                assert(crate::strings::occurs_at(query@, tick@, start as int));
                assert(start + 1 <= query.len());
            }
            let tail = slice(query, start + 1, query.len());
            assert(tail@ == query@.skip(start + 1));
            match find_vec(&tail, &tick) {
                Some(end) => {
                    proof {
                        crate::strings::lemma_find(tail@, tick@);
                        assert(crate::strings::occurs_at(tail@, tick@, end as int));
                    }
                    if end > 0 {
                        Some(slice(query, start + 1, start + 1 + end))
                    } else {
                        None
                    }
                },
                None => None,
            }
        },
        None => None,
    }
}

fn target_outcome_vec(query: &Vec<char>, q: &Vec<char>) -> (r: Option<Option<Vec<char>>>)
    requires
        q@ == lowercase(query@),
    ensures
        opt2(r) == target_term_outcome(query@),
{
    match token_after_vec(query, q, "what calls ") {
        Some(None) => {},
        other => return other,
    }
    match token_after_vec(query, q, "who calls ") {
        Some(None) => {},
        other => return other,
    }
    match token_after_vec(query, q, "called by ") {
        Some(None) => {},
        other => return other,
    }
    match does_call_term_vec(query, q) {
        Some(None) => {},
        other => return other,
    }
    match token_after_vec(query, q, "callers of ") {
        Some(None) => {},
        other => return other,
    }
    match token_after_vec(query, q, "callees of ") {
        Some(None) => {},
        other => return other,
    }
    Some(backtick_term_vec(query))
}

/// Extract the likely target identifier from a query.
pub fn extract_target_term(query: &str) -> (r: Option<String>)
    requires
        target_term_outcome(query@) is Some,
    ensures
        match r {
            Some(t) => target_term(query@) == Some(t@),
            None => target_term(query@) is None,
        },
{
    let qv = chars_of(query);
    let lower = to_lowercase(query);
    let q = chars_of(lower.as_str());
    match target_outcome_vec(&qv, &q) {
        Some(Some(t)) => Some(string_of(&t)),
        _ => None,
    }
}

/// The target term, or `None` for a query on which extraction fails: a
/// byte offset found in the lowercased text does not begin a character of
/// the text it is applied to.
pub fn try_extract_target_term(query: &str) -> (r: Option<Option<String>>)
    ensures
        match r {
            Some(Some(t)) => target_term_outcome(query@) == Some(Some(t@)),
            Some(None) => target_term_outcome(query@) == Some(None::<Seq<char>>),
            None => target_term_outcome(query@) is None,
        },
{
    let qv = chars_of(query);
    let lower = to_lowercase(query);
    let q = chars_of(lower.as_str());
    if target_outcome_vec(&qv, &q).is_some() {
        Some(extract_target_term(query))
    } else {
        None
    }
}

// ---------------------------------------------------------------------------
// Augmentation
// ---------------------------------------------------------------------------

/// A vector-search candidate: (chunk id, identifier).
pub type Candidate = (Seq<char>, Seq<char>);

/// Candidates whose identifier does not start with `test_`; all of them
/// when none is left.
pub open spec fn usable_candidates(cands: Seq<Candidate>) -> Seq<Candidate> {
    let f = cands.filter(|c: Candidate| !crate::strings::starts_with(c.1, "test_"@));
    if f.len() == 0 {
        cands
    } else {
        f
    }
}

/// The first candidate whose lowercased identifier equals `tl`.
pub open spec fn first_exact(cands: Seq<Candidate>, tl: Seq<char>) -> Option<Candidate>
    decreases cands.len(),
{
    if cands.len() == 0 {
        None
    } else if lowercase(cands[0].1) == tl {
        Some(cands[0])
    } else {
        first_exact(cands.drop_first(), tl)
    }
}

/// The first candidate whose lowercased identifier contains `tl`.
pub open spec fn first_partial(cands: Seq<Candidate>, tl: Seq<char>) -> Option<Candidate>
    decreases cands.len(),
{
    if cands.len() == 0 {
        None
    } else if contains(lowercase(cands[0].1), tl) {
        Some(cands[0])
    } else {
        first_partial(cands.drop_first(), tl)
    }
}

/// The query target as (chunk id, identifier): with a target term, an exact
/// candidate match, else the graph's unique chunk for the term, else a
/// candidate whose identifier contains the term, else nothing; without a
/// term, the first candidate.
pub open spec fn pick_target(query: Seq<char>, cands: Seq<Candidate>, g: CallGraph) -> Option<Candidate> {
    match target_term(query) {
        Some(term) => {
            let tl = lowercase(term);
            if first_exact(cands, tl) is Some {
                first_exact(cands, tl)
            } else if g.registered(lowercase(tl)).len() == 1 {
                Some((g.registered(lowercase(tl))[0], term))
            } else {
                first_partial(cands, tl)
            }
        },
        None => Some(cands[0]),
    }
}

/// `s` without repeats, keeping first occurrences in order.
pub open spec fn dedup(s: Seq<Seq<char>>) -> Seq<Seq<char>>
    decreases s.len(),
{
    if s.len() == 0 {
        seq![]
    } else {
        let d = dedup(s.drop_last());
        if d.contains(s.last()) {
            d
        } else {
            d.push(s.last())
        }
    }
}

/// The chunk ids a traversal in `dir` from `target` yields.
pub open spec fn resolve(dir: GraphDirection, es: Seq<Edge>, target: Seq<char>) -> Seq<Seq<char>> {
    match dir {
        GraphDirection::Callers => callers_spec(es, target),
        GraphDirection::Callees => callees_spec(es, target),
        GraphDirection::Both => dedup(callers_spec(es, target) + callees_spec(es, target)),
        GraphDirection::Path(_, _) => seq![],
    }
}

/// The augmentation as (target chunk id, target identifier, direction,
/// resolved chunk ids), or `None` when there are no candidates, no edges,
/// no matching target or nothing to add.
pub open spec fn augment_spec(query: Seq<char>, raw: Seq<Candidate>, g: CallGraph) -> Option<
    (Seq<char>, Seq<char>, GraphDirection, Seq<Seq<char>>),
> {
    if raw.len() == 0 || g.edge_seq().len() == 0 {
        None
    } else {
        match pick_target(query, usable_candidates(raw), g) {
            None => None,
            Some(t) => {
                let dir = direction_of(query);
                let ids = resolve(dir, g.edge_seq(), t.0);
                if ids.len() == 0 {
                    None
                } else {
                    Some((t.0, t.1, dir, ids))
                }
            },
        }
    }
}

/// `graph_augment` for any query: `None` when the query's target cannot be
/// extracted (a byte offset found in its lowercased text does not begin a
/// character of the text it is applied to) and there are candidates and
/// edges to augment with, else `graph_augment`'s result.
pub fn try_graph_augment(query: &str, candidates: &[(String, String)], graph: &CallGraph) -> (r: Option<
    Option<GraphAugmentResult>,
>)
    ensures
        match r {
            None => candidates@.len() > 0 && graph.edge_seq().len() > 0 && target_term_outcome(query@) is None,
            Some(Some(res)) => augment_spec(query@, pairs_view(candidates@), *graph) == Some(
                (
                    res.target_chunk_id@,
                    res.target_identifier@,
                    res.direction,
                    strings_view(res.resolved_chunk_ids@),
                ),
            ),
            Some(None) => augment_spec(query@, pairs_view(candidates@), *graph) is None,
        },
{
    if candidates.len() > 0 && !graph.is_empty() && try_extract_target_term(query).is_none() {
        return None;
    }
    Some(graph_augment(query, candidates, graph))
}

/// `x` is one edge away from `t` in direction `dir`.
pub open spec fn neighbour(es: Seq<Edge>, dir: GraphDirection, t: Seq<char>, x: Seq<char>) -> bool {
    match dir {
        GraphDirection::Callers => step(es, true, x, t),
        GraphDirection::Callees => step(es, true, t, x),
        GraphDirection::Both => step(es, true, x, t) || step(es, true, t, x),
        GraphDirection::Path(_, _) => false,
    }
}

proof fn lemma_dedup(s: Seq<Seq<char>>)
    ensures
        dedup(s).no_duplicates(),
        forall|i: int| 0 <= i < dedup(s).len() ==> s.contains(#[trigger] dedup(s)[i]),
    decreases s.len(),
{
    if s.len() > 0 {
        let init = s.drop_last();
        lemma_dedup(init);
        let d = dedup(init);
        assert forall|i: int| 0 <= i < dedup(s).len() implies s.contains(#[trigger] dedup(s)[i]) by {
            if i < d.len() {
                assert(dedup(s)[i] == d[i]);
                let k = choose|k: int| 0 <= k < init.len() && init[k] == d[i];
                assert(s[k] == init[k]);
            } else {
                assert(s[s.len() - 1] == s.last());
            }
        }
    }
}

/// Graph augmentation only adds direct neighbours of the target: every
/// chunk it returns is a caller of the target, a callee of it, or (for
/// `Both`) either, and the list is never empty; for `Both` a chunk that is
/// a caller and a callee is listed once.
pub proof fn lemma_augment_adds_neighbours(query: Seq<char>, raw: Seq<Candidate>, g: CallGraph)
    ensures
        match augment_spec(query, raw, g) {
            Some((t, _, dir, ids)) => ids.len() > 0 && (forall|i: int| 0 <= i < ids.len() ==> neighbour(
                g.edge_seq(),
                dir,
                t,
                #[trigger] ids[i],
            )) && (dir == GraphDirection::Both ==> ids.no_duplicates()),
            None => true,
        },
{
    let es = g.edge_seq();
    if let Some((t, _, dir, ids)) = augment_spec(query, raw, g) {
        assert(ids == resolve(dir, es, t));
        assert forall|i: int| 0 <= i < ids.len() implies neighbour(es, dir, t, #[trigger] ids[i]) by {
            let x = ids[i];
            lemma_callers_are_edges(es, t, x);
            lemma_callees_are_edges(es, t, x);
            match dir {
                GraphDirection::Callers => {
                    assert(callers_spec(es, t).contains(x));
                },
                GraphDirection::Callees => {
                    assert(callees_spec(es, t).contains(x));
                },
                GraphDirection::Both => {
                    let both = callers_spec(es, t) + callees_spec(es, t);
                    lemma_dedup(both);
                    assert(both.contains(x));
                    let k = choose|k: int| 0 <= k < both.len() && both[k] == x;
                    if k < callers_spec(es, t).len() {
                        assert(callers_spec(es, t)[k] == x);
                        assert(callers_spec(es, t).contains(x));
                    } else {
                        assert(callees_spec(es, t)[k - callers_spec(es, t).len()] == x);
                        assert(callees_spec(es, t).contains(x));
                    }
                },
                GraphDirection::Path(_, _) => {},
            }
        }
        if dir == GraphDirection::Both {
            lemma_dedup(callers_spec(es, t) + callees_spec(es, t));
        }
    }
}

/// Result of graph augmentation: which chunks to add from graph traversal.
#[derive(Debug)]
pub struct GraphAugmentResult {
    /// The chunk id identified as the query target.
    pub target_chunk_id: String,
    /// The identifier of the target.
    pub target_identifier: String,
    /// The traversal direction used.
    pub direction: GraphDirection,
    /// Chunk ids resolved from graph traversal, to be fetched by the caller.
    pub resolved_chunk_ids: Vec<String>,
}

fn copy_pair(p: &(String, String)) -> (r: (String, String))
    ensures
        r.0@ == p.0@ && r.1@ == p.1@,
{
    (p.0.clone(), p.1.clone())
}

fn usable_candidates_vec(cands: &[(String, String)]) -> (r: Vec<(String, String)>)
    ensures
        pairs_view(r@) == usable_candidates(pairs_view(cands@)),
{
    let ghost all = pairs_view(cands@);
    let ghost pred = |c: Candidate| !crate::strings::starts_with(c.1, "test_"@);
    let prefix = chars_of("test_");
    let mut kept: Vec<(String, String)> = Vec::new();
    let mut i: usize = 0;
    while i < cands.len()
        invariant
            i <= cands.len(),
            all == pairs_view(cands@),
            prefix@ == "test_"@,
            pred == (|c: Candidate| !crate::strings::starts_with(c.1, "test_"@)),
            pairs_view(kept@) == all.take(i as int).filter(pred),
        decreases cands.len() - i,
    {
        assert(all.take(i + 1) == all.take(i as int).push(all[i as int]));
        reveal_with_fuel(Seq::filter, 1);
        assert(all.take(i + 1).drop_last() == all.take(i as int));
        let id = chars_of(cands[i].1.as_str());
        if !crate::strings::starts_with_vec(&id, &prefix) {
            let ghost before = kept@;
            kept.push(copy_pair(&cands[i]));
            assert(pairs_view(kept@) =~= pairs_view(before).push(all[i as int]));
        }
        i += 1;
    }
    assert(all.take(cands.len() as int) == all);
    if kept.len() == 0 {
        let mut every: Vec<(String, String)> = Vec::new();
        let mut j: usize = 0;
        while j < cands.len()
            invariant
                j <= cands.len(),
                all == pairs_view(cands@),
                pairs_view(every@) == all.take(j as int),
            decreases cands.len() - j,
        {
            let ghost before = every@;
            every.push(copy_pair(&cands[j]));
            assert(pairs_view(every@) =~= pairs_view(before).push(all[j as int]));
            assert(all.take(j + 1) == all.take(j as int).push(all[j as int]));
            j += 1;
        }
        assert(all.take(cands.len() as int) == all);
        every
    } else {
        kept
    }
}

fn lowered(s: &String) -> (r: Vec<char>)
    ensures
        r@ == lowercase(s@),
{
    let lo = to_lowercase(s.as_str());
    chars_of(lo.as_str())
}

fn first_exact_vec(cands: &Vec<(String, String)>, tl: &Vec<char>) -> (r: Option<usize>)
    ensures
        match r {
            Some(i) => i < cands.len() && first_exact(pairs_view(cands@), tl@) == Some(pairs_view(cands@)[i as int]),
            None => first_exact(pairs_view(cands@), tl@) is None,
        },
{
    let ghost all = pairs_view(cands@);
    let mut i: usize = 0;
    assert(all.skip(0) == all);
    while i < cands.len()
        invariant
            i <= cands.len(),
            all == pairs_view(cands@),
            first_exact(all, tl@) == first_exact(all.skip(i as int), tl@),
        decreases cands.len() - i,
    {
        assert(all.skip(i as int)[0] == all[i as int]);
        assert(all.skip(i as int).drop_first() == all.skip(i + 1));
        if eq(&lowered(&cands[i].1), tl) {
            return Some(i);
        }
        i += 1;
    }
    None
}

fn first_partial_vec(cands: &Vec<(String, String)>, tl: &Vec<char>) -> (r: Option<usize>)
    ensures
        match r {
            Some(i) => i < cands.len() && first_partial(pairs_view(cands@), tl@) == Some(pairs_view(cands@)[i as int]),
            None => first_partial(pairs_view(cands@), tl@) is None,
        },
{
    let ghost all = pairs_view(cands@);
    let mut i: usize = 0;
    assert(all.skip(0) == all);
    while i < cands.len()
        invariant
            i <= cands.len(),
            all == pairs_view(cands@),
            first_partial(all, tl@) == first_partial(all.skip(i as int), tl@),
        decreases cands.len() - i,
    {
        assert(all.skip(i as int)[0] == all[i as int]);
        assert(all.skip(i as int).drop_first() == all.skip(i + 1));
        if crate::strings::contains_vec(&lowered(&cands[i].1), tl) {
            return Some(i);
        }
        i += 1;
    }
    None
}

fn dedup_vec(s: &Vec<String>) -> (r: Vec<String>)
    ensures
        strings_view(r@) == dedup(strings_view(s@)),
{
    let ghost all = strings_view(s@);
    let mut out: Vec<String> = Vec::new();
    let mut i: usize = 0;
    while i < s.len()
        invariant
            i <= s.len(),
            all == strings_view(s@),
            strings_view(out@) == dedup(all.take(i as int)),
        decreases s.len() - i,
    {
        assert(all.take(i + 1).drop_last() == all.take(i as int));
        assert(all.take(i + 1).last() == s@[i as int]@);
        if !contains_string(&out, &s[i]) {
            let ghost before = out@;
            out.push(s[i].clone());
            assert(strings_view(out@) =~= strings_view(before).push(s@[i as int]@));
        }
        i += 1;
    }
    assert(all.take(s.len() as int) == all);
    out
}

/// Identify graph-relevant chunk ids from vector-search candidates
/// (`(chunk_id, identifier)` pairs) and the call graph.
pub fn graph_augment(query: &str, candidates: &[(String, String)], graph: &CallGraph) -> (r: Option<
    GraphAugmentResult,
>)
    requires
        candidates@.len() == 0 || graph.edge_seq().len() == 0 || target_term_outcome(query@) is Some,
    ensures
        match r {
            Some(res) => augment_spec(query@, pairs_view(candidates@), *graph) == Some(
                (
                    res.target_chunk_id@,
                    res.target_identifier@,
                    res.direction,
                    strings_view(res.resolved_chunk_ids@),
                ),
            ),
            None => augment_spec(query@, pairs_view(candidates@), *graph) is None,
        },
{
    if candidates.len() == 0 || graph.is_empty() {
        return None;
    }
    let cands = usable_candidates_vec(candidates);
    let ghost cv = pairs_view(cands@);
    proof {
        let raw = pairs_view(candidates@);
        if cv.len() == 0 {
            assert(raw.len() > 0);
        }
    }
    let (target_chunk_id, target_identifier) = match extract_target_term(query) {
        Some(term) => {
            let tl = lowered(&term);
            match first_exact_vec(&cands, &tl) {
                Some(i) => copy_pair(&cands[i]),
                None => match graph.unique_chunk_for_identifier(string_of(&tl).as_str()) {
                    Some(cid) => (cid, term),
                    None => match first_partial_vec(&cands, &tl) {
                        Some(i) => copy_pair(&cands[i]),
                        None => {
                            return None;
                        },
                    },
                },
            }
        },
        None => {
            assert(cv.len() > 0);
            copy_pair(&cands[0])
        },
    };
    let direction = detect_direction(query);
    let resolved_chunk_ids = match &direction {
        GraphDirection::Callers => graph.callers_of(target_chunk_id.as_str()),
        GraphDirection::Callees => graph.callees_of(target_chunk_id.as_str()),
        GraphDirection::Both => {
            let mut ids = graph.callers_of(target_chunk_id.as_str());
            let more = graph.callees_of(target_chunk_id.as_str());
            let ghost first = strings_view(ids@);
            let mut j: usize = 0;
            while j < more.len()
                invariant
                    j <= more.len(),
                    strings_view(ids@) == first + strings_view(more@).take(j as int),
                decreases more.len() - j,
            {
                let ghost before = ids@;
                ids.push(more[j].clone());
                assert(strings_view(ids@) =~= strings_view(before).push(more@[j as int]@));
                assert(strings_view(more@).take(j + 1) =~= strings_view(more@).take(j as int).push(
                    more@[j as int]@,
                ));
                j += 1;
            }
            assert(strings_view(more@).take(more.len() as int) == strings_view(more@));
            dedup_vec(&ids)
        },
        GraphDirection::Path(from, to) => {
            assert(false);
            match graph.find_path(from.as_str(), to.as_str()) {
                Some(p) => p,
                None => Vec::new(),
            }
        },
    };
    if resolved_chunk_ids.len() == 0 {
        return None;
    }
    Some(GraphAugmentResult { target_chunk_id, target_identifier, direction, resolved_chunk_ids })
}

} // verus!
