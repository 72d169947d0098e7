//! The call graph: adjacency from persisted (caller, callee) edges, an
//! identifier index for target lookup, neighbourhood queries, bounded BFS
//! and path search.
use vstd::prelude::*;
use crate::strings::{chars_of, lower_vec, string_of, strings_view};
use crate::unicode::lowercase;

verus! {

/// A directed edge (caller chunk id, callee chunk id).
pub type Edge = (Seq<char>, Seq<char>);

pub open spec fn pairs_view(s: Seq<(String, String)>) -> Seq<Edge> {
    s.map_values(|p: (String, String)| (p.0@, p.1@))
}

pub open spec fn id_entries_view(s: Seq<(String, Vec<String>)>) -> Seq<(Seq<char>, Seq<Seq<char>>)> {
    s.map_values(|p: (String, Vec<String>)| (p.0@, strings_view(p.1@)))
}

/// Callers of `x`, one per edge into `x`, in edge order.
pub open spec fn callers_spec(es: Seq<Edge>, x: Seq<char>) -> Seq<Seq<char>>
    decreases es.len(),
{
    if es.len() == 0 {
        seq![]
    } else if es.last().1 == x {
        callers_spec(es.drop_last(), x).push(es.last().0)
    } else {
        callers_spec(es.drop_last(), x)
    }
}

/// Callees of `x`, one per edge out of `x`, in edge order.
pub open spec fn callees_spec(es: Seq<Edge>, x: Seq<char>) -> Seq<Seq<char>>
    decreases es.len(),
{
    if es.len() == 0 {
        seq![]
    } else if es.last().0 == x {
        callees_spec(es.drop_last(), x).push(es.last().1)
    } else {
        callees_spec(es.drop_last(), x)
    }
}

/// The chunk ids registered for a (lowercased) identifier.
pub open spec fn ids_for(entries: Seq<(Seq<char>, Seq<Seq<char>>)>, key: Seq<char>) -> Seq<Seq<char>>
    decreases entries.len(),
{
    if entries.len() == 0 {
        seq![]
    } else if entries[0].0 == key {
        entries[0].1
    } else {
        ids_for(entries.drop_first(), key)
    }
}

/// `list` with `c` appended unless already present.
pub open spec fn add_unique(list: Seq<Seq<char>>, c: Seq<char>) -> Seq<Seq<char>> {
    if list.contains(c) {
        list
    } else {
        list.push(c)
    }
}

/// Register every `(identifier, chunk id)` pair whose lowercased identifier
/// is `key`, in order, onto `list`.
pub open spec fn register_all(list: Seq<Seq<char>>, pairs: Seq<Edge>, key: Seq<char>) -> Seq<Seq<char>>
    decreases pairs.len(),
{
    if pairs.len() == 0 {
        list
    } else {
        let l = register_all(list, pairs.drop_last(), key);
        if lowercase(pairs.last().0) == key {
            add_unique(l, pairs.last().1)
        } else {
            l
        }
    }
}

/// In-memory call graph built from persisted edges.
pub struct CallGraph {
    /// (caller, callee) edges in the order given.
    edges: Vec<(String, String)>,
    /// Lowercased identifier -> distinct chunk ids, in registration order.
    ids: Vec<(String, Vec<String>)>,
}

impl CallGraph {
    /// The edges, in order.
    pub closed spec fn edge_seq(&self) -> Seq<Edge> {
        pairs_view(self.edges@)
    }

    /// Chunk ids registered for a lowercased identifier.
    pub closed spec fn registered(&self, key: Seq<char>) -> Seq<Seq<char>> {
        ids_for(id_entries_view(self.ids@), key)
    }

    /// Build adjacency from `(caller_chunk_id, callee_chunk_id)` pairs; no
    /// identifier is registered yet.
    pub fn from_edges(edges: Vec<(String, String)>) -> (g: CallGraph)
        ensures
            g.edge_seq() == pairs_view(edges@),
            forall|k: Seq<char>| #[trigger] g.registered(k) == Seq::<Seq<char>>::empty(),
    {
        let g = CallGraph { edges, ids: Vec::new() };
        assert forall|k: Seq<char>| #[trigger] g.registered(k) == Seq::<Seq<char>>::empty() by {
            assert(id_entries_view(g.ids@).len() == 0);
        }
        g
    }

    fn find_key(&self, key: &String) -> (r: Option<usize>)
        ensures
            match r {
                Some(k) => k < self.ids.len() && self.ids@[k as int].0@ == key@ && self.registered(key@)
                    == strings_view(self.ids@[k as int].1@) && forall|j: int|
                    0 <= j < k ==> self.ids@[j].0@ != key@,
                None => self.registered(key@) == Seq::<Seq<char>>::empty() && forall|j: int|
                    0 <= j < self.ids.len() ==> self.ids@[j].0@ != key@,
            },
    {
        let ghost ev = id_entries_view(self.ids@);
        let mut i: usize = 0;
        assert(ev.skip(0) == ev);
        while i < self.ids.len()
            invariant
                i <= self.ids.len(),
                ev == id_entries_view(self.ids@),
                ids_for(ev, key@) == ids_for(ev.skip(i as int), key@),
                forall|j: int| 0 <= j < i ==> self.ids@[j].0@ != key@,
            decreases self.ids.len() - i,
        {
            assert(ev.skip(i as int)[0] == ev[i as int]);
            assert(ev.skip(i as int).drop_first() == ev.skip(i + 1));
            if self.ids[i].0 == *key {
                return Some(i);
            }
            i += 1;
        }
        None
    }

    /// Register identifier → chunk id mappings for target lookup; the
    /// identifier is lowercased and a chunk id already registered for it is
    /// not added again.
    pub fn register_identifiers(&mut self, pairs: Vec<(String, String)>)
        ensures
            final(self).edge_seq() == old(self).edge_seq(),
            forall|k: Seq<char>| #[trigger] final(self).registered(k) == register_all(
                old(self).registered(k),
                pairs_view(pairs@),
                k,
            ),
    {
        let ghost pv = pairs_view(pairs@);
        let ghost start = *self;
        let mut i: usize = 0;
        while i < pairs.len()
            invariant
                i <= pairs.len(),
                pv == pairs_view(pairs@),
                self.edge_seq() == start.edge_seq(),
                forall|k: Seq<char>| #[trigger] self.registered(k) == register_all(
                    start.registered(k),
                    pv.take(i as int),
                    k,
                ),
            decreases pairs.len() - i,
        {
            assert(pv.take(i + 1).drop_last() == pv.take(i as int));
            assert(pv.take(i + 1).last() == (pairs@[i as int].0@, pairs@[i as int].1@));
            let key = string_of(&lower_vec(&chars_of(pairs[i].0.as_str())));
            let cid = pairs[i].1.clone();
            let ghost before = *self;
            self.add_id(key, cid);
            assert forall|k: Seq<char>| #[trigger] self.registered(k) == register_all(
                start.registered(k),
                pv.take(i + 1),
                k,
            ) by {
                assert(before.registered(k) == register_all(start.registered(k), pv.take(i as int), k));
            }
            i += 1;
        }
        assert(pv.take(pairs.len() as int) == pv);
    }

    proof fn lemma_ids_for_update(ev: Seq<(Seq<char>, Seq<Seq<char>>)>, idx: int, key: Seq<char>, v: Seq<Seq<char>>, k: Seq<char>)
        requires
            0 <= idx < ev.len(),
            ev[idx].0 == key,
            forall|j: int| 0 <= j < idx ==> ev[j].0 != key,
        ensures
            ids_for(ev.update(idx, (key, v)), k) == (if k == key { v } else { ids_for(ev, k) }),
        decreases ev.len(),
    {
        let u = ev.update(idx, (key, v));
        if idx > 0 {
            assert(u.drop_first() == ev.drop_first().update(idx - 1, (key, v)));
            assert(u[0] == ev[0]);
            Self::lemma_ids_for_update(ev.drop_first(), idx - 1, key, v, k);
        } else {
            assert(u.drop_first() == ev.drop_first());
            assert(u[0] == (key, v));
        }
    }

    proof fn lemma_ids_for_push(ev: Seq<(Seq<char>, Seq<Seq<char>>)>, key: Seq<char>, v: Seq<Seq<char>>, k: Seq<char>)
        requires
            forall|j: int| 0 <= j < ev.len() ==> ev[j].0 != key,
        ensures
            ids_for(ev.push((key, v)), k) == (if k == key { v } else { ids_for(ev, k) }),
        decreases ev.len(),
    {
        let u = ev.push((key, v));
        if ev.len() > 0 {
            assert(u.drop_first() == ev.drop_first().push((key, v)));
            assert(u[0] == ev[0]);
            Self::lemma_ids_for_push(ev.drop_first(), key, v, k);
        } else {
            assert(u[0] == (key, v));
            assert(u.drop_first().len() == 0);
            assert(ids_for(u.drop_first(), k) == Seq::<Seq<char>>::empty());
            assert(ids_for(ev, k) == Seq::<Seq<char>>::empty());
        }
    }

    fn add_id(&mut self, key: String, cid: String)
        ensures
            final(self).edge_seq() == old(self).edge_seq(),
            forall|k: Seq<char>| #[trigger] final(self).registered(k) == if k == key@ {
                add_unique(old(self).registered(k), cid@)
            } else {
                old(self).registered(k)
            },
    {
        let ghost ev = id_entries_view(self.ids@);
        match self.find_key(&key) {
            Some(idx) => {
                let mut list = self.ids[idx].1.clone();
                let ghost lv = strings_view(list@);
                let mut present = false;
                let mut j: usize = 0;
                while j < list.len()
                    invariant
                        j <= list.len(),
                        lv == strings_view(list@),
                        present == lv.take(j as int).contains(cid@),
                    decreases list.len() - j,
                {
                    assert(lv.take(j + 1) == lv.take(j as int).push(lv[j as int]));
                    if list[j] == cid {
                        present = true;
                        assert(lv.take(j + 1)[j as int] == cid@);
                    } else {
                        assert(lv.take(j + 1).contains(cid@) ==> lv.take(j as int).contains(cid@)) by {
                            if lv.take(j + 1).contains(cid@) {
                                let w = choose|w: int| 0 <= w < j + 1 && #[trigger] lv.take(j + 1)[w] == cid@;
                                assert(w != j);
                                assert(lv.take(j as int)[w] == cid@);
                            }
                        }
                    }
                    j += 1;
                }
                assert(lv.take(list.len() as int) == lv);
                if !present {
                    list.push(cid);
                    assert(strings_view(list@) =~= lv.push(cid@));
                }
                let ghost nv = strings_view(list@);
                assert(nv == add_unique(lv, cid@));
                self.ids.set(idx, (key, list));
                assert(id_entries_view(self.ids@) =~= ev.update(idx as int, (key@, nv)));
                proof {
                    assert forall|k: Seq<char>| #[trigger] ids_for(id_entries_view(self.ids@), k) == if k == key@ {
                        nv
                    } else {
                        ids_for(ev, k)
                    } by {
                        Self::lemma_ids_for_update(ev, idx as int, key@, nv, k);
                    }
                }
            },
            None => {
                let mut list: Vec<String> = Vec::new();
                list.push(cid);
                let ghost nv = strings_view(list@);
                assert(nv =~= seq![cid@]);
                assert(Seq::<Seq<char>>::empty().push(cid@) =~= seq![cid@]);
                self.ids.push((key, list));
                assert(id_entries_view(self.ids@) =~= ev.push((key@, nv)));
                proof {
                    assert forall|k: Seq<char>| #[trigger] ids_for(id_entries_view(self.ids@), k) == if k == key@ {
                        nv
                    } else {
                        ids_for(ev, k)
                    } by {
                        Self::lemma_ids_for_push(ev, key@, nv, k);
                    }
                }
            },
        }
    }

    /// The chunk id registered for this identifier (case-insensitive) when
    /// exactly one is; `None` when none or several are.
    pub fn unique_chunk_for_identifier(&self, identifier: &str) -> (r: Option<String>)
        ensures
            match r {
                Some(c) => self.registered(lowercase(identifier@)).len() == 1 && c@ == self.registered(
                    lowercase(identifier@),
                )[0],
                None => self.registered(lowercase(identifier@)).len() != 1,
            },
    {
        let key = string_of(&lower_vec(&chars_of(identifier)));
        match self.find_key(&key) {
            Some(idx) => {
                if self.ids[idx].1.len() == 1 {
                    Some(self.ids[idx].1[0].clone())
                } else {
                    None
                }
            },
            None => None,
        }
    }

    /// Direct callers of the given chunk, one per edge into it, in edge order.
    pub fn callers_of(&self, chunk_id: &str) -> (r: Vec<String>)
        ensures
            strings_view(r@) == callers_spec(self.edge_seq(), chunk_id@),
    {
        let ghost es = self.edge_seq();
        let target = chunk_id.to_string();
        let mut r: Vec<String> = Vec::new();
        let mut i: usize = 0;
        while i < self.edges.len()
            invariant
                i <= self.edges.len(),
                es == self.edge_seq(),
                target@ == chunk_id@,
                strings_view(r@) == callers_spec(es.take(i as int), chunk_id@),
            decreases self.edges.len() - i,
        {
            assert(es.take(i + 1).drop_last() == es.take(i as int));
            assert(es.take(i + 1).last() == (self.edges@[i as int].0@, self.edges@[i as int].1@));
            if self.edges[i].1 == target {
                let ghost before = r@;
                r.push(self.edges[i].0.clone());
                assert(strings_view(r@) =~= strings_view(before).push(self.edges@[i as int].0@));
            }
            i += 1;
        }
        assert(es.take(self.edges.len() as int) == es);
        r
    }

    /// Direct callees of the given chunk, one per edge out of it, in edge order.
    pub fn callees_of(&self, chunk_id: &str) -> (r: Vec<String>)
        ensures
            strings_view(r@) == callees_spec(self.edge_seq(), chunk_id@),
    {
        let ghost es = self.edge_seq();
        let target = chunk_id.to_string();
        let mut r: Vec<String> = Vec::new();
        let mut i: usize = 0;
        while i < self.edges.len()
            invariant
                i <= self.edges.len(),
                es == self.edge_seq(),
                target@ == chunk_id@,
                strings_view(r@) == callees_spec(es.take(i as int), chunk_id@),
            decreases self.edges.len() - i,
        {
            assert(es.take(i + 1).drop_last() == es.take(i as int));
            assert(es.take(i + 1).last() == (self.edges@[i as int].0@, self.edges@[i as int].1@));
            if self.edges[i].0 == target {
                let ghost before = r@;
                r.push(self.edges[i].1.clone());
                assert(strings_view(r@) =~= strings_view(before).push(self.edges@[i as int].1@));
            }
            i += 1;
        }
        assert(es.take(self.edges.len() as int) == es);
        r
    }

    /// True when the graph has no edges.
    pub fn is_empty(&self) -> (r: bool)
        ensures
            r == (self.edge_seq().len() == 0),
    {
        self.edges.len() == 0
    }
}


pub(crate) proof fn lemma_callers_are_edges(es: Seq<Edge>, x: Seq<char>, y: Seq<char>)
    ensures
        callers_spec(es, x).contains(y) == step(es, true, y, x),
    decreases es.len(),
{
    if es.len() > 0 {
        let init = es.drop_last();
        lemma_callers_are_edges(init, x, y);
        let rest = callers_spec(init, x);
        if step(init, true, y, x) {
            let k = choose|k: int| 0 <= k < init.len() && #[trigger] init[k] == (y, x);
            assert(es[k] == init[k]);
        }
        if step(es, true, y, x) {
            let k = choose|k: int| 0 <= k < es.len() && #[trigger] es[k] == (y, x);
            if k < init.len() {
                assert(init[k] == es[k]);
            }
        }
        if es.last().1 == x {
            assert(callers_spec(es, x) == rest.push(es.last().0));
            if rest.push(es.last().0).contains(y) && !rest.contains(y) {
                assert(es[es.len() - 1] == (y, x));
            }
            if rest.contains(y) {
                let j = choose|j: int| 0 <= j < rest.len() && rest[j] == y;
                assert(rest.push(es.last().0)[j] == y);
            }
            if es.last().0 == y {
                assert(rest.push(es.last().0)[rest.len() as int] == y);
            }
        }
    }
}

pub(crate) proof fn lemma_callees_are_edges(es: Seq<Edge>, y: Seq<char>, x: Seq<char>)
    ensures
        callees_spec(es, y).contains(x) == step(es, true, y, x),
    decreases es.len(),
{
    if es.len() > 0 {
        let init = es.drop_last();
        lemma_callees_are_edges(init, y, x);
        let rest = callees_spec(init, y);
        if step(init, true, y, x) {
            let k = choose|k: int| 0 <= k < init.len() && #[trigger] init[k] == (y, x);
            assert(es[k] == init[k]);
        }
        if step(es, true, y, x) {
            let k = choose|k: int| 0 <= k < es.len() && #[trigger] es[k] == (y, x);
            if k < init.len() {
                assert(init[k] == es[k]);
            }
        }
        if es.last().0 == y {
            assert(callees_spec(es, y) == rest.push(es.last().1));
            if rest.push(es.last().1).contains(x) && !rest.contains(x) {
                assert(es[es.len() - 1] == (y, x));
            }
            if rest.contains(x) {
                let j = choose|j: int| 0 <= j < rest.len() && rest[j] == x;
                assert(rest.push(es.last().1)[j] == x);
            }
            if es.last().1 == x {
                assert(rest.push(es.last().1)[rest.len() as int] == x);
            }
        }
    }
}

/// `y` is among the callers of `x` exactly when `x` is among the callees of
/// `y`: both say that the graph has an edge from `y` to `x`.
pub proof fn lemma_callers_callees_dual(g: CallGraph, x: Seq<char>, y: Seq<char>)
    ensures
        callers_spec(g.edge_seq(), x).contains(y) == callees_spec(g.edge_seq(), y).contains(x),
        callers_spec(g.edge_seq(), x).contains(y) == step(g.edge_seq(), true, y, x),
{
    lemma_callers_are_edges(g.edge_seq(), x, y);
    lemma_callees_are_edges(g.edge_seq(), y, x);
}

// ---------------------------------------------------------------------------
// Walks, BFS and path search
// ---------------------------------------------------------------------------

/// One step along an edge: `a → b` forward, or `a ← b` against the edges.
pub open spec fn step(es: Seq<Edge>, forward: bool, a: Seq<char>, b: Seq<char>) -> bool {
    exists|k: int| 0 <= k < es.len() && #[trigger] es[k] == (if forward { (a, b) } else { (b, a) })
}

pub open spec fn step_at(es: Seq<Edge>, forward: bool, p: Seq<Seq<char>>, i: int) -> bool {
    step(es, forward, p[i], p[i + 1])
}

/// The end an edge is left from in the given direction.
pub open spec fn from_end(e: Edge, forward: bool) -> Seq<char> {
    if forward { e.0 } else { e.1 }
}

/// The end an edge leads to in the given direction.
pub open spec fn to_end(e: Edge, forward: bool) -> Seq<char> {
    if forward { e.1 } else { e.0 }
}

/// `p` is a walk: non-empty, each node one step from the previous.
pub open spec fn is_walk(es: Seq<Edge>, forward: bool, p: Seq<Seq<char>>) -> bool {
    p.len() >= 1 && forall|i: int| 0 <= i < p.len() - 1 ==> #[trigger] step_at(es, forward, p, i)
}

/// There is a walk of exactly `len` steps from `a` to `b`.
pub open spec fn walk_of(es: Seq<Edge>, forward: bool, a: Seq<char>, b: Seq<char>, len: nat) -> bool {
    exists|p: Seq<Seq<char>>|
        #[trigger] is_walk(es, forward, p) && p.len() == len + 1 && p[0] == a && p.last() == b
}

/// Every node that appears in an edge.
pub open spec fn edge_nodes(es: Seq<Edge>) -> Seq<Seq<char>> {
    es.map_values(|e: Edge| e.0) + es.map_values(|e: Edge| e.1)
}

pub open spec fn depth_nodes(d: Seq<(Seq<char>, usize)>) -> Seq<Seq<char>> {
    d.map_values(|e: (Seq<char>, usize)| e.0)
}

pub open spec fn depth_view(s: Seq<(String, usize)>) -> Seq<(Seq<char>, usize)> {
    s.map_values(|e: (String, usize)| (e.0@, e.1))
}

/// Depth limit of a BFS: `max_depth`, but at least one step.
pub open spec fn depth_bound(max_depth: usize) -> nat {
    if max_depth == 0 { 1 } else { max_depth as nat }
}

/// What holds of a BFS in progress: the visited list is the start followed by
/// the discovered nodes, all distinct; each discovered node lies within the
/// bound, appears in some edge, is reached by a walk of its depth, and depths
/// never decrease.
pub open spec fn frontier_ok(es: Seq<Edge>, forward: bool, start: Seq<char>, bound: nat, vis: Seq<Seq<char>>, d: Seq<(Seq<char>, usize)>) -> bool {
    &&& vis == seq![start] + depth_nodes(d)
    &&& vis.no_duplicates()
    &&& forall|j: int| 0 <= j < d.len() ==> 1 <= #[trigger] d[j].1 <= bound
    &&& forall|j: int| 0 <= j < d.len() ==> edge_nodes(es).contains(#[trigger] d[j].0)
    &&& forall|j: int| 0 <= j < d.len() ==> walk_of(es, forward, start, #[trigger] d[j].0, d[j].1 as nat)
    &&& forall|i: int, j: int| 0 <= i <= j < d.len() ==> d[i].1 <= d[j].1
}

/// BFS result: `(node, depth)` pairs of the nodes within `bound` steps of
/// `start` (other than `start`), each once, at its shortest distance, by
/// non-decreasing depth.
pub open spec fn bfs_result(es: Seq<Edge>, forward: bool, start: Seq<char>, bound: nat, r: Seq<(Seq<char>, usize)>) -> bool {
    &&& depth_nodes(r).no_duplicates()
    &&& forall|k: int| 0 <= k < r.len() ==> #[trigger] r[k].0 != start
    &&& forall|k: int| 0 <= k < r.len() ==> 1 <= #[trigger] r[k].1 <= bound
    &&& forall|k: int| 0 <= k < r.len() ==> walk_of(es, forward, start, #[trigger] r[k].0, r[k].1 as nat)
    &&& forall|i: int, j: int| 0 <= i <= j < r.len() ==> r[i].1 <= r[j].1
    &&& forall|p: Seq<Seq<char>>|
        #[trigger] is_walk(es, forward, p) && p[0] == start && 2 <= p.len() <= bound + 1 && p.last()
            != start ==> exists|k: int| 0 <= k < r.len() && r[k].0 == p.last() && r[k].1 <= p.len() - 1
}

proof fn lemma_distinct_bound(s: Seq<Seq<char>>, u: Seq<Seq<char>>)
    requires
        s.no_duplicates(),
        forall|i: int| 0 <= i < s.len() ==> u.contains(#[trigger] s[i]),
    ensures
        s.len() <= u.len(),
{
    broadcast use vstd::seq_lib::seq_to_set_is_finite;
    s.unique_seq_to_set();
    u.lemma_cardinality_of_set();
    assert(s.to_set().subset_of(u.to_set())) by {
        assert forall|x: Seq<char>| s.to_set().contains(x) implies u.to_set().contains(x) by {
            let i = choose|i: int| 0 <= i < s.len() && s[i] == x;
            assert(u.contains(s[i]));
        }
    }
    vstd::set_lib::lemma_len_subset(s.to_set(), u.to_set());
}

pub(crate) proof fn lemma_push_no_dup(s: Seq<Seq<char>>, x: Seq<char>)
    requires
        s.no_duplicates(),
        !s.contains(x),
    ensures
        s.push(x).no_duplicates(),
{
    let q = s.push(x);
    assert forall|i: int, j: int| 0 <= i < q.len() && 0 <= j < q.len() && i != j implies q[i] != q[j] by {
        if i < s.len() && j < s.len() {
        } else if i == s.len() {
            assert(q[j] == s[j]);
        } else {
            assert(q[i] == s[i]);
        }
    }
}

proof fn lemma_edge_nodes(es: Seq<Edge>, k: int)
    requires
        0 <= k < es.len(),
    ensures
        edge_nodes(es).contains(es[k].0),
        edge_nodes(es).contains(es[k].1),
{
    let a = es.map_values(|e: Edge| e.0);
    let b = es.map_values(|e: Edge| e.1);
    assert(edge_nodes(es)[k] == es[k].0);
    assert(edge_nodes(es)[a.len() + k] == es[k].1);
}

proof fn lemma_walk_extend(es: Seq<Edge>, forward: bool, p: Seq<Seq<char>>, x: Seq<char>)
    requires
        is_walk(es, forward, p),
        step(es, forward, p.last(), x),
    ensures
        is_walk(es, forward, p.push(x)),
{
    let q = p.push(x);
    assert forall|i: int| 0 <= i < q.len() - 1 implies #[trigger] step_at(es, forward, q, i) by {
        if i < p.len() - 1 {
            assert(step_at(es, forward, p, i));
        }
    }
}

proof fn lemma_bfs_complete(
    es: Seq<Edge>,
    forward: bool,
    start: Seq<char>,
    max_depth: nat,
    d: Seq<(Seq<char>, usize)>,
    p: Seq<Seq<char>>,
)
    requires
        is_walk(es, forward, p),
        p[0] == start,
        2 <= p.len(),
        p.len() - 1 <= (if max_depth == 0 { 1 } else { max_depth }),
        forall|x: Seq<char>|
            #[trigger] step(es, forward, start, x) && x != start ==> exists|j: int|
                0 <= j < d.len() && d[j].0 == x && d[j].1 <= 1,
        forall|k: int, x: Seq<char>|
            0 <= k < d.len() && d[k].1 < max_depth && #[trigger] step(es, forward, d[k].0, x) && x
                != start ==> exists|j: int| 0 <= j < d.len() && d[j].0 == x && d[j].1 <= d[k].1 + 1,
    ensures
        p.last() == start || exists|j: int| 0 <= j < d.len() && d[j].0 == p.last() && d[j].1 <= p.len() - 1,
    decreases p.len(),
{
    let n = p.len();
    assert(step_at(es, forward, p, n - 2));
    let u = p[n - 2];
    if n == 2 {
    } else {
        let q = p.drop_last();
        assert forall|i: int| 0 <= i < q.len() - 1 implies #[trigger] step_at(es, forward, q, i) by {
            assert(step_at(es, forward, p, i));
        }
        lemma_bfs_complete(es, forward, start, max_depth, d, q);
        if u == start {
        } else {
            let j = choose|j: int| 0 <= j < d.len() && d[j].0 == u && d[j].1 <= q.len() - 1;
            if p.last() != start {
                assert(step(es, forward, d[j].0, p.last()));
            }
        }
    }
}

/// A walk along the edges from `a` to `b` (forward direction).
pub open spec fn path_from_to(es: Seq<Edge>, p: Seq<Seq<char>>, a: Seq<char>, b: Seq<char>) -> bool {
    is_walk(es, true, p) && p[0] == a && p.last() == b
}

pub open spec fn queue_view(q: Seq<(String, Vec<String>)>) -> Seq<(Seq<char>, Seq<Seq<char>>)> {
    q.map_values(|e: (String, Vec<String>)| (e.0@, strings_view(e.1@)))
}

pub open spec fn queue_nodes(q: Seq<(Seq<char>, Seq<Seq<char>>)>) -> Seq<Seq<char>> {
    q.map_values(|e: (Seq<char>, Seq<Seq<char>>)| e.0)
}

/// What holds of a path search in progress from `from` towards `to`: the
/// queue starts with `from`, holds distinct nodes other than `to`, each with
/// a walk from `from` to it, by non-decreasing walk length.
pub open spec fn path_queue_ok(es: Seq<Edge>, from: Seq<char>, to: Seq<char>, vis: Seq<Seq<char>>, q: Seq<(Seq<char>, Seq<Seq<char>>)>) -> bool {
    &&& vis == queue_nodes(q)
    &&& vis.no_duplicates()
    &&& !vis.contains(to)
    &&& q.len() >= 1
    &&& q[0] == (from, seq![from])
    &&& forall|j: int| 0 <= j < q.len() ==> path_from_to(es, #[trigger] q[j].1, from, q[j].0)
    &&& forall|j: int| 1 <= j < q.len() ==> edge_nodes(es).contains(#[trigger] q[j].0)
    &&& forall|i: int, j: int| 0 <= i <= j < q.len() ==> q[i].1.len() <= q[j].1.len()
}

/// Every neighbour of an expanded queue entry (index below `h`) is queued,
/// by a walk at most one longer, and is not `to`.
pub open spec fn expanded_below(es: Seq<Edge>, to: Seq<char>, q: Seq<(Seq<char>, Seq<Seq<char>>)>, h: int) -> bool {
    forall|k: int, x: Seq<char>|
        0 <= k < h && #[trigger] step(es, true, q[k].0, x) ==> x != to && exists|j: int|
            0 <= j < q.len() && q[j].0 == x && q[j].1.len() <= q[k].1.len() + 1
}

/// A walk from `from` no longer than the shortest unexpanded entry ends at a
/// queued node, by a walk no longer, and never at `to`.
proof fn lemma_path_reach(
    es: Seq<Edge>,
    from: Seq<char>,
    to: Seq<char>,
    q: Seq<(Seq<char>, Seq<Seq<char>>)>,
    h: int,
    p: Seq<Seq<char>>,
)
    requires
        from != to,
        q.len() >= 1,
        q[0] == (from, seq![from]),
        expanded_below(es, to, q, h),
        is_walk(es, true, p),
        p[0] == from,
        forall|j: int| 0 <= j < q.len() && q[j].1.len() < p.len() ==> j < h,
    ensures
        p.last() != to,
        exists|j: int| 0 <= j < q.len() && q[j].0 == p.last() && q[j].1.len() <= p.len(),
    decreases p.len(),
{
    if p.len() == 1 {
        assert(q[0].1.len() == 1);
    } else {
        let r = p.drop_last();
        assert forall|i: int| 0 <= i < r.len() - 1 implies #[trigger] step_at(es, true, r, i) by {
            assert(step_at(es, true, p, i));
        }
        lemma_path_reach(es, from, to, q, h, r);
        let j = choose|j: int| 0 <= j < q.len() && q[j].0 == r.last() && q[j].1.len() <= r.len();
        assert(step_at(es, true, p, p.len() - 2));
        assert(step(es, true, q[j].0, p.last()));
    }
}

impl CallGraph {
    /// Visit the edges leaving `node` in the given direction, in edge order,
    /// appending each target not yet visited at depth `new_depth`.
    fn expand(
        &self,
        forward: bool,
        start: &String,
        node: &String,
        new_depth: usize,
        max_depth: usize,
        visited: &mut Vec<String>,
        order: &mut Vec<(String, usize)>,
    )
        requires
            frontier_ok(self.edge_seq(), forward, start@, depth_bound(max_depth), strings_view(old(visited)@), depth_view(old(order)@)),
            1 <= new_depth <= depth_bound(max_depth),
            walk_of(self.edge_seq(), forward, start@, node@, (new_depth - 1) as nat),
            old(order)@.len() > 0 ==> depth_view(old(order)@).last().1 <= new_depth,
        ensures
            frontier_ok(self.edge_seq(), forward, start@, depth_bound(max_depth), strings_view(final(visited)@), depth_view(final(order)@)),
            final(order)@.len() >= old(order)@.len(),
            forall|j: int| 0 <= j < old(order)@.len() ==> depth_view(final(order)@)[j] == depth_view(old(order)@)[j],
            final(order)@.len() > 0 ==> depth_view(final(order)@).last().1 <= new_depth,
            forall|x: Seq<char>|
                #[trigger] step(self.edge_seq(), forward, node@, x) && x != start@ ==> exists|j: int|
                    0 <= j < final(order)@.len() && depth_view(final(order)@)[j].0 == x && depth_view(final(order)@)[j].1 <= new_depth,
    {
        let ghost es = self.edge_seq();
        let ghost bound = depth_bound(max_depth);
        let ghost d_in = depth_view(order@);
        let mut k: usize = 0;
        while k < self.edges.len()
            invariant
                k <= self.edges.len(),
                es == self.edge_seq(),
                bound == depth_bound(max_depth),
                1 <= new_depth <= bound,
                walk_of(es, forward, start@, node@, (new_depth - 1) as nat),
                frontier_ok(es, forward, start@, bound, strings_view(visited@), depth_view(order@)),
                order@.len() >= d_in.len(),
                forall|j: int| 0 <= j < d_in.len() ==> depth_view(order@)[j] == d_in[j],
                order@.len() > 0 ==> depth_view(order@).last().1 <= new_depth,
                forall|kk: int|
                    0 <= kk < k && from_end(#[trigger] es[kk], forward) == node@ && to_end(es[kk], forward) != start@
                        ==> exists|j: int| 0 <= j < order.len() && depth_view(order@)[j].0 == to_end(es[kk], forward) && depth_view(order@)[j].1 <= new_depth,
            decreases self.edges.len() - k,
        {
            let e = &self.edges[k];
            let (src, n) = if forward { (&e.0, &e.1) } else { (&e.1, &e.0) };
            let ghost dv_start = depth_view(order@);
            assert(es[k as int] == (e.0@, e.1@));
            assert(from_end(es[k as int], forward) == src@ && to_end(es[k as int], forward) == n@);
            if *src == *node {
                if !contains_string(visited, n) {
                    let ghost dv0 = depth_view(order@);
                    let ghost sv0 = strings_view(visited@);
                    proof {
                        lemma_edge_nodes(es, k as int);
                        let pw = choose|pw: Seq<Seq<char>>| #[trigger] is_walk(es, forward, pw) && pw.len() == new_depth && pw[0] == start@ && pw.last() == node@;
                        assert(step(es, forward, pw.last(), n@));
                        lemma_walk_extend(es, forward, pw, n@);
                        let w2 = pw.push(n@);
                        assert(w2.len() == new_depth + 1 && w2[0] == start@ && w2.last() == n@);
                        lemma_push_no_dup(sv0, n@);
                    }
                    visited.push(n.clone());
                    order.push((n.clone(), new_depth));
                    proof {
                        let d = depth_view(order@);
                        assert(d =~= dv0.push((n@, new_depth)));
                        assert(strings_view(visited@) =~= sv0.push(n@));
                        assert(depth_nodes(d) =~= depth_nodes(dv0).push(n@));
                        assert(strings_view(visited@) =~= seq![start@] + depth_nodes(d));
                        assert(d[d.len() - 1].0 == n@);
                        assert(exists|j: int| 0 <= j < d.len() && d[j].0 == n@ && d[j].1 <= new_depth);
                    }
                } else {
                    proof {
                        if n@ != start@ {
                            let sv = strings_view(visited@);
                            let w = choose|w: int| 0 <= w < sv.len() && sv[w] == n@;
                            assert(w > 0);
                            assert(depth_view(order@)[w - 1].0 == n@);
                            assert(exists|j: int| 0 <= j < order.len() && depth_view(order@)[j].0 == n@ && depth_view(order@)[j].1 <= new_depth);
                        }
                    }
                }
            }
            proof {
                assert forall|kk: int|
                    0 <= kk < k + 1 && from_end(#[trigger] es[kk], forward) == node@ && to_end(es[kk], forward) != start@
                    implies exists|j: int| 0 <= j < order.len() && depth_view(order@)[j].0 == to_end(es[kk], forward) && depth_view(order@)[j].1 <= new_depth by {
                    if kk < k {
                        let j = choose|j: int| 0 <= j < dv_start.len() && dv_start[j].0 == to_end(es[kk], forward) && dv_start[j].1 <= new_depth;
                        assert(depth_view(order@)[j] == dv_start[j]);
                    }
                }
            }
            k += 1;
        }
        proof {
            assert forall|x: Seq<char>| #[trigger] step(es, forward, node@, x) && x != start@ implies exists|j: int|
                0 <= j < order.len() && depth_view(order@)[j].0 == x && depth_view(order@)[j].1 <= new_depth by {
                let kk = choose|kk: int| 0 <= kk < es.len() && #[trigger] es[kk] == (if forward { (node@, x) } else { (x, node@) });
                assert(from_end(es[kk], forward) == node@ && to_end(es[kk], forward) == x);
            }
        }
    }

    /// Breadth-first search from `start`, following callers (`forward ==
    /// false`) or callees (`forward == true`). The start's own neighbours are
    /// always reported (depth 1); deeper nodes are reached only through
    /// nodes of depth below `max_depth`.
    fn bfs(&self, start: &str, max_depth: usize, forward: bool) -> (r: Vec<(String, usize)>)
        ensures
            bfs_result(self.edge_seq(), forward, start@, depth_bound(max_depth), depth_view(r@)),
    {
        let ghost es = self.edge_seq();
        let ghost universe = edge_nodes(es);
        let ghost bound = depth_bound(max_depth);
        let s = start.to_string();
        let mut visited: Vec<String> = Vec::new();
        visited.push(s.clone());
        let mut order: Vec<(String, usize)> = Vec::new();
        proof {
            assert(strings_view(visited@) =~= seq![start@] + depth_nodes(depth_view(order@)));
            let w = seq![start@];
            assert(is_walk(es, forward, w) && w.len() == 1 && w[0] == start@ && w.last() == start@);
        }
        self.expand(forward, &s, &s, 1, max_depth, &mut visited, &mut order);
        let mut h: usize = 0;
        while h < order.len()
            invariant
                h <= order.len(),
                es == self.edge_seq(),
                universe == edge_nodes(es),
                s@ == start@,
                bound == depth_bound(max_depth),
                frontier_ok(es, forward, start@, bound, strings_view(visited@), depth_view(order@)),
                h < order.len() ==> depth_view(order@).last().1 <= depth_view(order@)[h as int].1 + 1,
                forall|x: Seq<char>|
                    #[trigger] step(es, forward, start@, x) && x != start@ ==> exists|j: int|
                        0 <= j < order.len() && depth_view(order@)[j].0 == x && depth_view(order@)[j].1 <= 1,
                forall|kk: int, x: Seq<char>|
                    0 <= kk < h && depth_view(order@)[kk].1 < max_depth && #[trigger] step(es, forward, depth_view(order@)[kk].0, x) && x != start@
                        ==> exists|j: int| 0 <= j < order.len() && depth_view(order@)[j].0 == x && depth_view(order@)[j].1 <= depth_view(order@)[kk].1 + 1,
            decreases universe.len() + 1 - h,
        {
            proof {
                let dn = depth_nodes(depth_view(order@));
                assert(strings_view(visited@).drop_first() =~= dn);
                assert forall|i: int| 0 <= i < dn.len() implies universe.contains(#[trigger] dn[i]) by {
                    assert(dn[i] == depth_view(order@)[i].0);
                }
                lemma_distinct_bound(dn, universe);
            }
            let ghost before_iter = depth_view(order@);
            let node = order[h].0.clone();
            let depth = order[h].1;
            if depth < max_depth {
                assert(depth_view(order@)[h as int] == (node@, depth));
                assert(walk_of(es, forward, start@, depth_view(order@)[h as int].0, depth_view(order@)[h as int].1 as nat));
                self.expand(forward, &s, &node, depth + 1, max_depth, &mut visited, &mut order);
            }
            proof {
                let d = depth_view(order@);
                assert forall|x: Seq<char>| #[trigger] step(es, forward, start@, x) && x != start@ implies exists|j: int|
                    0 <= j < order.len() && d[j].0 == x && d[j].1 <= 1 by {
                    let j = choose|j: int| 0 <= j < before_iter.len() && before_iter[j].0 == x && before_iter[j].1 <= 1;
                    assert(d[j] == before_iter[j]);
                }
                assert forall|kk: int, x: Seq<char>|
                    0 <= kk < h + 1 && d[kk].1 < max_depth && #[trigger] step(es, forward, d[kk].0, x) && x != start@
                        implies exists|j: int| 0 <= j < order.len() && d[j].0 == x && d[j].1 <= d[kk].1 + 1 by {
                    assert(d[kk] == before_iter[kk]);
                    if kk < h {
                        let j = choose|j: int| 0 <= j < before_iter.len() && before_iter[j].0 == x && before_iter[j].1 <= before_iter[kk].1 + 1;
                        assert(d[j] == before_iter[j]);
                    }
                }
                if h + 1 < d.len() {
                    assert(d[h as int].1 <= d[h + 1].1);
                }
            }
            h += 1;
        }
        proof {
            let d = depth_view(order@);
            assert forall|p: Seq<Seq<char>>|
                #[trigger] is_walk(es, forward, p) && p[0] == start@ && 2 <= p.len() <= bound + 1 && p.last() != start@
                    implies exists|k: int| 0 <= k < d.len() && d[k].0 == p.last() && d[k].1 <= p.len() - 1 by {
                lemma_bfs_complete(es, forward, start@, max_depth as nat, d, p);
            }
            let dn = depth_nodes(d);
            assert(strings_view(visited@).drop_first() =~= dn);
            assert forall|k: int| 0 <= k < d.len() implies #[trigger] d[k].0 != start@ by {
                assert(strings_view(visited@)[k + 1] == d[k].0);
                assert(strings_view(visited@)[0] == start@);
            }
        }
        order
    }


    /// Expand queue entry `h` of a path search: for each forward edge out of
    /// its node, in edge order, stop with the extended walk when the edge
    /// reaches `to`, else queue each target not yet seen.
    fn path_step(
        &self,
        from: &String,
        to: &String,
        h: usize,
        visited: &mut Vec<String>,
        queue: &mut Vec<(String, Vec<String>)>,
    ) -> (found: Option<Vec<String>>)
        requires
            from@ != to@,
            path_queue_ok(self.edge_seq(), from@, to@, strings_view(old(visited)@), queue_view(old(queue)@)),
            h < old(queue)@.len(),
            queue_view(old(queue)@).last().1.len() <= queue_view(old(queue)@)[h as int].1.len() + 1,
        ensures
            path_queue_ok(self.edge_seq(), from@, to@, strings_view(final(visited)@), queue_view(final(queue)@)),
            final(queue)@.len() >= old(queue)@.len(),
            forall|j: int| 0 <= j < old(queue)@.len() ==> queue_view(final(queue)@)[j] == queue_view(old(queue)@)[j],
            queue_view(final(queue)@).last().1.len() <= queue_view(old(queue)@)[h as int].1.len() + 1,
            match found {
                Some(p) => strings_view(p@) == queue_view(old(queue)@)[h as int].1.push(to@)
                    && step(self.edge_seq(), true, queue_view(old(queue)@)[h as int].0, to@),
                None => forall|x: Seq<char>|
                    #[trigger] step(self.edge_seq(), true, queue_view(old(queue)@)[h as int].0, x) ==> x != to@
                        && exists|j: int| 0 <= j < final(queue)@.len() && queue_view(final(queue)@)[j].0 == x
                            && queue_view(final(queue)@)[j].1.len() <= queue_view(old(queue)@)[h as int].1.len() + 1,
            },
    {
        let ghost es = self.edge_seq();
        let ghost q_in = queue_view(queue@);
        let node = queue[h].0.clone();
        let path = queue[h].1.clone();
        assert(strings_view(path@) =~= q_in[h as int].1);
        let mut k: usize = 0;
        while k < self.edges.len()
            invariant
                k <= self.edges.len(),
                es == self.edge_seq(),
                from@ != to@,
                h < q_in.len(),
                q_in == queue_view(old(queue)@),
                node@ == q_in[h as int].0,
                strings_view(path@) == q_in[h as int].1,
                path_queue_ok(es, from@, to@, strings_view(visited@), queue_view(queue@)),
                queue@.len() >= q_in.len(),
                forall|j: int| 0 <= j < q_in.len() ==> queue_view(queue@)[j] == q_in[j],
                queue_view(queue@).last().1.len() <= q_in[h as int].1.len() + 1,
                forall|kk: int|
                    0 <= kk < k && (#[trigger] es[kk]).0 == node@ ==> es[kk].1 != to@ && exists|j: int|
                        0 <= j < queue@.len() && queue_view(queue@)[j].0 == es[kk].1
                            && queue_view(queue@)[j].1.len() <= q_in[h as int].1.len() + 1,
            decreases self.edges.len() - k,
        {
            let e = &self.edges[k];
            let ghost qv_start = queue_view(queue@);
            assert(es[k as int] == (e.0@, e.1@));
            if e.0 == node {
                if e.1 == *to {
                    let mut full = path.clone();
                    assert(full@ =~= path@);
                    full.push(e.1.clone());
                    assert(strings_view(full@) =~= q_in[h as int].1.push(to@));
                    return Some(full);
                }
                let n = &e.1;
                if !contains_string(visited, n) {
                    let ghost sv0 = strings_view(visited@);
                    let mut np = path.clone();
                    assert(np@ =~= path@);
                    np.push(n.clone());
                    proof {
                        lemma_edge_nodes(es, k as int);
                        let pw = q_in[h as int].1;
                        assert(path_from_to(es, pw, from@, node@));
                        assert(step(es, true, pw.last(), n@));
                        lemma_walk_extend(es, true, pw, n@);
                        assert(strings_view(np@) =~= pw.push(n@));
                        lemma_push_no_dup(sv0, n@);
                        assert(qv_start[h as int] == q_in[h as int]);
                    }
                    visited.push(n.clone());
                    queue.push((n.clone(), np));
                    proof {
                        let qv = queue_view(queue@);
                        assert(qv =~= qv_start.push((n@, q_in[h as int].1.push(n@))));
                        assert(strings_view(visited@) =~= sv0.push(n@));
                        assert(queue_nodes(qv) =~= queue_nodes(qv_start).push(n@));
                        assert(qv[0] == qv_start[0]);
                        assert(qv[qv.len() - 1].0 == n@);
                        assert(forall|i: int| 0 <= i < qv_start.len() ==> qv_start[i].1.len() <= qv_start.last().1.len());
                        assert(exists|j: int| 0 <= j < qv.len() && qv[j].0 == n@ && qv[j].1.len() <= q_in[h as int].1.len() + 1);
                    }
                } else {
                    proof {
                        let sv = strings_view(visited@);
                        let w = choose|w: int| 0 <= w < sv.len() && sv[w] == n@;
                        assert(queue_view(queue@)[w].0 == n@);
                        if w >= q_in.len() {
                            assert(queue_view(queue@)[w].1.len() <= queue_view(queue@).last().1.len());
                        } else {
                            assert(queue_view(queue@)[w] == q_in[w]);
                            assert(q_in[w].1.len() <= q_in.last().1.len());
                        }
                        assert(exists|j: int| 0 <= j < queue@.len() && queue_view(queue@)[j].0 == n@
                            && queue_view(queue@)[j].1.len() <= q_in[h as int].1.len() + 1);
                    }
                }
            }
            proof {
                assert forall|kk: int|
                    0 <= kk < k + 1 && (#[trigger] es[kk]).0 == node@ implies es[kk].1 != to@ && exists|j: int|
                        0 <= j < queue@.len() && queue_view(queue@)[j].0 == es[kk].1
                            && queue_view(queue@)[j].1.len() <= q_in[h as int].1.len() + 1 by {
                    if kk < k {
                        let j = choose|j: int| 0 <= j < qv_start.len() && qv_start[j].0 == es[kk].1
                            && qv_start[j].1.len() <= q_in[h as int].1.len() + 1;
                        assert(queue_view(queue@)[j] == qv_start[j]);
                    }
                }
            }
            k += 1;
        }
        proof {
            assert forall|x: Seq<char>| #[trigger] step(es, true, q_in[h as int].0, x) implies x != to@
                && exists|j: int| 0 <= j < queue@.len() && queue_view(queue@)[j].0 == x
                    && queue_view(queue@)[j].1.len() <= q_in[h as int].1.len() + 1 by {
                let kk = choose|kk: int| 0 <= kk < es.len() && #[trigger] es[kk] == (q_in[h as int].0, x);
                assert(es[kk].0 == node@);
            }
        }
        None
    }

    /// Shortest path from `from` to `to` along the edges (callee
    /// direction), both ends included; `[from]` when they are equal, `None`
    /// when `to` cannot be reached.
    pub fn find_path(&self, from: &str, to: &str) -> (r: Option<Vec<String>>)
        ensures
            match r {
                Some(p) => path_from_to(self.edge_seq(), strings_view(p@), from@, to@)
                    && forall|w: Seq<Seq<char>>| #[trigger] path_from_to(self.edge_seq(), w, from@, to@) ==> p.len() <= w.len(),
                None => forall|w: Seq<Seq<char>>| !#[trigger] path_from_to(self.edge_seq(), w, from@, to@),
            },
    {
        let ghost es = self.edge_seq();
        let ghost universe = edge_nodes(es);
        let f = from.to_string();
        let t = to.to_string();
        if f == t {
            let mut p: Vec<String> = Vec::new();
            p.push(f);
            proof {
                let w = strings_view(p@);
                assert(w =~= seq![from@]);
                assert(is_walk(es, true, w));
            }
            return Some(p);
        }
        let mut visited: Vec<String> = Vec::new();
        visited.push(f.clone());
        let mut first: Vec<String> = Vec::new();
        first.push(f.clone());
        let mut queue: Vec<(String, Vec<String>)> = Vec::new();
        queue.push((f.clone(), first));
        proof {
            let qv = queue_view(queue@);
            assert(qv[0].1 =~= seq![from@]);
            assert(strings_view(visited@) =~= queue_nodes(qv));
            assert(is_walk(es, true, seq![from@]));
            assert(path_from_to(es, qv[0].1, from@, qv[0].0));
        }
        let mut h: usize = 0;
        while h < queue.len()
            invariant
                h <= queue.len(),
                es == self.edge_seq(),
                universe == edge_nodes(es),
                f@ == from@,
                t@ == to@,
                from@ != to@,
                path_queue_ok(es, from@, to@, strings_view(visited@), queue_view(queue@)),
                h < queue.len() ==> queue_view(queue@).last().1.len() <= queue_view(queue@)[h as int].1.len() + 1,
                expanded_below(es, to@, queue_view(queue@), h as int),
            decreases universe.len() + 2 - h,
        {
            proof {
                let qn = queue_nodes(queue_view(queue@)).drop_first();
                assert forall|i: int| 0 <= i < qn.len() implies universe.contains(#[trigger] qn[i]) by {
                    assert(qn[i] == queue_view(queue@)[i + 1].0);
                }
                assert(qn.no_duplicates());
                lemma_distinct_bound(qn, universe);
            }
            let ghost q0 = queue_view(queue@);
            match self.path_step(&f, &t, h, &mut visited, &mut queue) {
                Some(p) => {
                    proof {
                        let pv = strings_view(p@);
                        let hp = q0[h as int].1;
                        assert(path_from_to(es, hp, from@, q0[h as int].0));
                        lemma_walk_extend(es, true, hp, to@);
                        assert forall|w: Seq<Seq<char>>| #[trigger] path_from_to(es, w, from@, to@) implies pv.len() <= w.len() by {
                            if w.len() < pv.len() {
                                assert forall|j: int| 0 <= j < q0.len() && q0[j].1.len() < w.len() implies j < h by {
                                    if j >= h {
                                        assert(q0[h as int].1.len() <= q0[j].1.len());
                                    }
                                }
                                lemma_path_reach(es, from@, to@, q0, h as int, w);
                            }
                        }
                    }
                    return Some(p);
                },
                None => {},
            }
            proof {
                let qv = queue_view(queue@);
                assert forall|kk: int, x: Seq<char>|
                    0 <= kk < h + 1 && #[trigger] step(es, true, qv[kk].0, x) implies x != to@ && exists|j: int|
                        0 <= j < qv.len() && qv[j].0 == x && qv[j].1.len() <= qv[kk].1.len() + 1 by {
                    assert(qv[kk] == q0[kk]);
                    if kk < h {
                        let j = choose|j: int| 0 <= j < q0.len() && q0[j].0 == x && q0[j].1.len() <= q0[kk].1.len() + 1;
                        assert(qv[j] == q0[j]);
                    }
                }
                if h + 1 < qv.len() {
                    assert(qv[h as int].1.len() <= qv[h + 1].1.len());
                }
            }
            h += 1;
        }
        proof {
            let qv = queue_view(queue@);
            assert forall|w: Seq<Seq<char>>| !#[trigger] path_from_to(es, w, from@, to@) by {
                if path_from_to(es, w, from@, to@) {
                    lemma_path_reach(es, from@, to@, qv, h as int, w);
                }
            }
        }
        None
    }

    /// BFS along callers: `(chunk id, depth)` of every chunk within
    /// `max_depth` caller steps (at least one) of `chunk_id`, excluding it.
    pub fn bfs_callers(&self, chunk_id: &str, max_depth: usize) -> (r: Vec<(String, usize)>)
        ensures
            bfs_result(self.edge_seq(), false, chunk_id@, depth_bound(max_depth), depth_view(r@)),
    {
        self.bfs(chunk_id, max_depth, false)
    }

    /// BFS along callees: `(chunk id, depth)` of every chunk within
    /// `max_depth` callee steps (at least one) of `chunk_id`, excluding it.
    pub fn bfs_callees(&self, chunk_id: &str, max_depth: usize) -> (r: Vec<(String, usize)>)
        ensures
            bfs_result(self.edge_seq(), true, chunk_id@, depth_bound(max_depth), depth_view(r@)),
    {
        self.bfs(chunk_id, max_depth, true)
    }
}

pub(crate) fn contains_string(v: &Vec<String>, x: &String) -> (r: bool)
    ensures
        r == strings_view(v@).contains(x@),
{
    let mut i: usize = 0;
    while i < v.len()
        invariant
            i <= v.len(),
            forall|j: int| 0 <= j < i ==> v@[j]@ != x@,
        decreases v.len() - i,
    {
        if v[i] == *x {
            assert(strings_view(v@)[i as int] == x@);
            return true;
        }
        i += 1;
    }
    assert(forall|j: int| 0 <= j < v.len() ==> strings_view(v@)[j] != x@);
    false
}
} // verus!
