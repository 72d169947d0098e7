//! The call graph of stored call edges, as the MCP server loads it.
use vstd::prelude::*;
use crate::graph::{pairs_view, register_all, CallGraph, Edge};
use crate::types::CallEdge;

verus! {

/// The (caller, callee) chunk-id pairs of stored call edges.
pub open spec fn edge_pairs(es: Seq<CallEdge>) -> Seq<Edge> {
    es.map_values(|e: CallEdge| (e.caller_chunk_id@, e.callee_chunk_id@))
}

/// The (identifier, chunk id) registrations of stored call edges: each
/// edge's caller, then its callee.
pub open spec fn edge_identifiers(es: Seq<CallEdge>) -> Seq<Edge>
    decreases es.len(),
{
    if es.len() == 0 {
        seq![]
    } else {
        let e = es.last();
        edge_identifiers(es.drop_last()) + seq![(e.caller_identifier@, e.caller_chunk_id@), (e.callee_identifier@, e.callee_chunk_id@)]
    }
}

impl CallGraph {
    /// The graph of stored call edges (of every project: chunk ids are
    /// content hashes, so graphs combine): their chunk-id pairs in order,
    /// with each edge's caller and callee identifiers registered.
    pub fn from_call_edges(edges: &[CallEdge]) -> (g: CallGraph)
        ensures
            g.edge_seq() == edge_pairs(edges@),
            forall|k: Seq<char>| #[trigger] g.registered(k) == register_all(seq![], edge_identifiers(edges@), k),
    {
        let mut pairs: Vec<(String, String)> = Vec::new();
        let mut ids: Vec<(String, String)> = Vec::new();
        let mut i: usize = 0;
        while i < edges.len()
            invariant
                i <= edges.len(),
                pairs_view(pairs@) == edge_pairs(edges@.take(i as int)),
                pairs_view(ids@) == edge_identifiers(edges@.take(i as int)),
            decreases edges.len() - i,
        {
            let e = &edges[i];
            assert(edges@.take(i + 1).drop_last() =~= edges@.take(i as int));
            assert(edges@.take(i + 1).last() == edges@[i as int]);
            let ghost p0 = pairs_view(pairs@);
            let ghost i0 = pairs_view(ids@);
            let caller = e.caller_chunk_id.clone();
            let callee = e.callee_chunk_id.clone();
            assert(caller@ == edges@[i as int].caller_chunk_id@ && callee@ == edges@[i as int].callee_chunk_id@);
            pairs.push((caller, callee));
            ids.push((e.caller_identifier.clone(), e.caller_chunk_id.clone()));
            ids.push((e.callee_identifier.clone(), e.callee_chunk_id.clone()));
            assert(edge_pairs(edges@.take(i + 1)) =~= p0.push((edges@[i as int].caller_chunk_id@, edges@[i as int].callee_chunk_id@)));
            assert(pairs_view(pairs@) =~= edge_pairs(edges@.take(i + 1)));
            assert(pairs_view(ids@) =~= edge_identifiers(edges@.take(i + 1)));
            i += 1;
        }
        assert(edges@.take(edges.len() as int) =~= edges@);
        let mut g = CallGraph::from_edges(pairs);
        g.register_identifiers(ids);
        g
    }
}

} // verus!
