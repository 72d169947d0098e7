//! Laws of the call graph: breadth-first depths are shortest distances,
//! and identifier registration finds exactly the chunk ids of a name,
//! composes, and repeats harmlessly.
use vstd::prelude::*;
use crate::augment::{GraphDirection, augment_spec, dedup, direction_of, target_term, usable_candidates, Candidate};
use crate::graph::{CallGraph, Edge, bfs_result, callees_spec, callers_spec, depth_nodes, is_walk, register_all};
use crate::unicode::lowercase;

verus! {

/// A node that a breadth-first walk reports sits at its shortest distance:
/// no walk from the start reaches it in fewer steps than its depth.
#[verifier::spinoff_prover]
pub proof fn lemma_bfs_depths_shortest(
    es: Seq<Edge>,
    forward: bool,
    start: Seq<char>,
    bound: nat,
    r: Seq<(Seq<char>, usize)>,
    k: int,
    p: Seq<Seq<char>>,
)
    requires
        bfs_result(es, forward, start, bound, r),
        0 <= k < r.len(),
        is_walk(es, forward, p),
        p[0] == start,
        p.last() == r[k].0,
    ensures
        r[k].1 <= p.len() - 1,
{
    assert(r[k].0 != start);
    if p.len() - 1 <= bound {
        assert(p.len() >= 2);
        let k2 = choose|k2: int| 0 <= k2 < r.len() && r[k2].0 == p.last() && r[k2].1 <= p.len() - 1;
        assert(depth_nodes(r)[k2] == depth_nodes(r)[k]);
    }
}

/// The chunk ids paired in `pairs` with an identifier whose lowercase is
/// `key`.
pub open spec fn ids_named(pairs: Seq<Edge>, key: Seq<char>) -> Set<Seq<char>> {
    Set::new(|c: Seq<char>| exists|i: int| 0 <= i < pairs.len() && lowercase(pairs[i].0) == key && #[trigger] pairs[i].1 == c)
}

proof fn lemma_register_all_facts(list: Seq<Seq<char>>, pairs: Seq<Edge>, key: Seq<char>)
    ensures
        register_all(list, pairs, key).to_set() == list.to_set().union(ids_named(pairs, key)),
        list.no_duplicates() ==> register_all(list, pairs, key).no_duplicates(),
    decreases pairs.len(),
{
    if pairs.len() > 0 {
        let prev = pairs.drop_last();
        lemma_register_all_facts(list, prev, key);
        let l = register_all(list, prev, key);
        let (id, c) = pairs.last();
        assert forall|x: Seq<char>| #[trigger] ids_named(pairs, key).contains(x) <==> ids_named(prev, key).contains(x)
            || (lowercase(id) == key && x == c) by {
            if ids_named(pairs, key).contains(x) {
                let i = choose|i: int| 0 <= i < pairs.len() && lowercase(pairs[i].0) == key && #[trigger] pairs[i].1 == x;
                if i < pairs.len() - 1 {
                    assert(prev[i] == pairs[i]);
                }
            }
            if ids_named(prev, key).contains(x) {
                let i = choose|i: int| 0 <= i < prev.len() && lowercase(prev[i].0) == key && #[trigger] prev[i].1 == x;
                assert(pairs[i] == prev[i]);
            }
            if lowercase(id) == key && x == c {
                assert(pairs[pairs.len() - 1].1 == x);
            }
        }
        if lowercase(id) == key {
            if l.contains(c) {
                assert(l.to_set().contains(c));
            } else {
                l.lemma_push_to_set_commute(c);
                if list.no_duplicates() {
                    assert forall|i: int, j: int| 0 <= i < j < l.push(c).len() implies l.push(c)[i] != l.push(c)[j] by {
                        if j == l.len() {
                            assert(l.push(c)[i] == l[i]);
                        }
                    }
                }
            }
        }
        assert(register_all(list, pairs, key).to_set() =~= list.to_set().union(ids_named(pairs, key)));
    }
}

/// Looking an identifier up finds exactly the distinct chunk ids registered
/// under any identifier with the same lowercase form: starting from none,
/// the registered list holds each such chunk id once, so it has a single
/// entry exactly when one chunk id carries that name, and that entry is it.
pub proof fn lemma_registered_ids(pairs: Seq<Edge>, key: Seq<char>)
    ensures
        register_all(seq![], pairs, key).no_duplicates(),
        register_all(seq![], pairs, key).to_set() == ids_named(pairs, key),
        (register_all(seq![], pairs, key).len() == 1) <==> (exists|c: Seq<char>| ids_named(pairs, key) == set![c]),
        register_all(seq![], pairs, key).len() == 1 ==> ids_named(pairs, key) == set![register_all(seq![], pairs, key)[0]],
{
    let e: Seq<Seq<char>> = seq![];
    lemma_register_all_facts(e, pairs, key);
    assert(e.to_set() =~= Set::<Seq<char>>::empty());
    let l = register_all(e, pairs, key);
    assert(l.to_set() =~= ids_named(pairs, key));
    if l.len() == 1 {
        assert(l.to_set() =~= set![l[0]]) by {
            assert forall|x: Seq<char>| l.to_set().contains(x) <==> x == l[0] by {
                if l.to_set().contains(x) {
                    let i = choose|i: int| 0 <= i < l.len() && l[i] == x;
                }
                if x == l[0] {
                    assert(l.contains(l[0]));
                }
            }
        }
    }
    if exists|c: Seq<char>| ids_named(pairs, key) == set![c] {
        let c = choose|c: Seq<char>| ids_named(pairs, key) == set![c];
        assert(l.to_set().contains(c));
        let i = choose|i: int| 0 <= i < l.len() && l[i] == c;
        if l.len() != 1 {
            let j = if i == 0 { 1int } else { 0int };
            assert(l.to_set().contains(l[j]));
            assert(l[j] == c);
        }
    }
}

/// Registering in two calls is registering the concatenated pairs in one.
pub proof fn lemma_register_all_concat(list: Seq<Seq<char>>, p1: Seq<Edge>, p2: Seq<Edge>, key: Seq<char>)
    ensures
        register_all(register_all(list, p1, key), p2, key) == register_all(list, p1 + p2, key),
    decreases p2.len(),
{
    if p2.len() == 0 {
        assert(p1 + p2 =~= p1);
    } else {
        lemma_register_all_concat(list, p1, p2.drop_last(), key);
        assert((p1 + p2).drop_last() =~= p1 + p2.drop_last());
        assert((p1 + p2).last() == p2.last());
    }
}

proof fn lemma_register_all_keeps(list: Seq<Seq<char>>, pairs: Seq<Edge>, key: Seq<char>)
    requires
        forall|i: int| 0 <= i < pairs.len() && lowercase(pairs[i].0) == key ==> list.contains(#[trigger] pairs[i].1),
    ensures
        register_all(list, pairs, key) == list,
    decreases pairs.len(),
{
    if pairs.len() > 0 {
        let prev = pairs.drop_last();
        assert forall|i: int| 0 <= i < prev.len() && lowercase(prev[i].0) == key implies list.contains(#[trigger] prev[i].1) by {
            assert(prev[i] == pairs[i]);
        }
        lemma_register_all_keeps(list, prev, key);
        let k = pairs.len() - 1;
        if lowercase(pairs[k].0) == key {
            assert(list.contains(pairs[k].1));
        }
    }
}

/// Registering the same pairs again changes nothing: every chunk id they
/// carry is already registered under its identifier.
pub proof fn lemma_register_idempotent(list: Seq<Seq<char>>, pairs: Seq<Edge>, key: Seq<char>)
    ensures
        register_all(register_all(list, pairs, key), pairs, key) == register_all(list, pairs, key),
{
    let l = register_all(list, pairs, key);
    lemma_register_all_facts(list, pairs, key);
    assert forall|i: int| 0 <= i < pairs.len() && lowercase(pairs[i].0) == key implies l.contains(#[trigger] pairs[i].1) by {
        assert(ids_named(pairs, key).contains(pairs[i].1));
        assert(l.to_set().contains(pairs[i].1));
    }
    lemma_register_all_keeps(l, pairs, key);
}

/// The list registered for `key` after one registration call per batch,
/// in order.
pub open spec fn register_batches(list: Seq<Seq<char>>, batches: Seq<Seq<Edge>>, key: Seq<char>) -> Seq<Seq<char>>
    decreases batches.len(),
{
    if batches.len() == 0 {
        list
    } else {
        register_all(register_batches(list, batches.drop_last(), key), batches.last(), key)
    }
}

proof fn lemma_register_batches_flat(list: Seq<Seq<char>>, batches: Seq<Seq<Edge>>, key: Seq<char>)
    ensures
        register_batches(list, batches, key) == register_all(list, batches.flatten_alt(), key),
    decreases batches.len(),
{
    if batches.len() > 0 {
        lemma_register_batches_flat(list, batches.drop_last(), key);
        lemma_register_all_concat(list, batches.drop_last().flatten_alt(), batches.last(), key);
    }
}

/// A graph built from edges and then given any number of registration
/// calls looks an identifier up to a chunk id `c` exactly when `c` is the
/// only chunk id paired, in any of those calls, with an identifier of the
/// same lowercase form; otherwise (no such id, or several) it finds none.
pub proof fn lemma_lookup_after_registrations(batches: Seq<Seq<Edge>>, key: Seq<char>)
    ensures
        ({
            let l = register_batches(seq![], batches, key);
            &&& (l.len() == 1) <==> (exists|c: Seq<char>| ids_named(batches.flatten(), key) == set![c])
            &&& l.len() == 1 ==> ids_named(batches.flatten(), key) == set![l[0]]
        }),
{
    lemma_register_batches_flat(seq![], batches, key);
    batches.lemma_flatten_and_flatten_alt_are_equivalent();
    lemma_registered_ids(batches.flatten(), key);
}

/// What an augmentation returns: a non-empty list of chunk ids in the
/// direction the query asks for: the target's callers, its callees, or
/// both (callers first, each id once); and, for a query naming no target,
/// the target is the first candidate not named `test_…` (the first
/// candidate when all are).
pub proof fn lemma_augment_shape(query: Seq<char>, raw: Seq<Candidate>, g: CallGraph)
    ensures
        match augment_spec(query, raw, g) {
            Some((t, ident, dir, ids)) => {
                &&& ids.len() > 0
                &&& dir == direction_of(query)
                &&& dir == GraphDirection::Callers ==> ids == callers_spec(g.edge_seq(), t)
                &&& dir == GraphDirection::Callees ==> ids == callees_spec(g.edge_seq(), t)
                &&& dir == GraphDirection::Both ==> ids == dedup(callers_spec(g.edge_seq(), t) + callees_spec(g.edge_seq(), t))
                &&& target_term(query) is None ==> (t, ident) == usable_candidates(raw)[0]
            },
            None => true,
        },
{
}

} // verus!
