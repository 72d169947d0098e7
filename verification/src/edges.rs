//! Edge resolution: turn call identifiers, imports and type relations
//! extracted at ingestion into persistent edges between chunks.
//!
//! Resolution is tiered and project-scoped: a reference to an identifier is
//! resolved among the chunks of the source's own project only, preferring
//! (1) a unique candidate in the same file, then (2) a unique candidate
//! whose file the source file's import of that name points at, then (3) the
//! only candidate in the project. Self-references, unknown names and
//! ambiguous names produce no edge.
use vstd::prelude::*;
use crate::import_match::{basename, import_matches, import_matches_spec, parent_dir};
use crate::language::{ImportInfo, ImportView, TypeRelation, TypeRelationView};
use crate::strings::{chars_of, rfind_char_vec, slice, string_of};
use crate::types::{
    call_edge_id, call_edge_id_text, content_hash_of, edge_id_text, CallEdge, CallEdgeView,
    CodeChunk, CodeChunkView, EdgeConfidence, EdgeContext, EdgeRelation, FileChunk, FileChunkView,
    FolderChunk, FolderChunkView, GraphEdge, GraphEdgeView,
};

verus! {

/// A resolution candidate: (chunk id, file path).
pub type Cand = (Seq<char>, Seq<char>);

pub open spec fn chunks_view(s: Seq<CodeChunk>) -> Seq<CodeChunkView> {
    s.map_values(|c: CodeChunk| c@)
}

pub open spec fn files_view(s: Seq<FileChunk>) -> Seq<FileChunkView> {
    s.map_values(|c: FileChunk| c@)
}

pub open spec fn folders_view(s: Seq<FolderChunk>) -> Seq<FolderChunkView> {
    s.map_values(|c: FolderChunk| c@)
}

pub open spec fn import_list_view(s: Seq<ImportInfo>) -> Seq<ImportView> {
    s.map_values(|i: ImportInfo| i@)
}

pub open spec fn imports_view(s: Seq<(String, Vec<ImportInfo>)>) -> Seq<(Seq<char>, Seq<ImportView>)> {
    s.map_values(|p: (String, Vec<ImportInfo>)| (p.0@, import_list_view(p.1@)))
}

pub open spec fn names_view(s: Seq<String>) -> Seq<Seq<char>> {
    s.map_values(|n: String| n@)
}

pub open spec fn calls_view(s: Seq<(String, Vec<String>)>) -> Seq<(Seq<char>, Seq<Seq<char>>)> {
    s.map_values(|p: (String, Vec<String>)| (p.0@, names_view(p.1@)))
}

pub open spec fn relations_view(s: Seq<TypeRelation>) -> Seq<TypeRelationView> {
    s.map_values(|r: TypeRelation| r@)
}

pub open spec fn type_rels_view(s: Seq<(String, Vec<TypeRelation>)>) -> Seq<(Seq<char>, Seq<TypeRelationView>)> {
    s.map_values(|p: (String, Vec<TypeRelation>)| (p.0@, relations_view(p.1@)))
}

pub open spec fn cands_view(s: Seq<(String, String)>) -> Seq<Cand> {
    s.map_values(|p: (String, String)| (p.0@, p.1@))
}

// ---------------------------------------------------------------------------
// Resolution specification
// ---------------------------------------------------------------------------

/// Chunks of `project` named `name`, other than `source_id`, in chunk order.
pub open spec fn candidates(chunks: Seq<CodeChunkView>, project: Seq<char>, name: Seq<char>, source_id: Seq<char>) -> Seq<Cand>
    decreases chunks.len(),
{
    if chunks.len() == 0 {
        seq![]
    } else {
        let rest = candidates(chunks.drop_last(), project, name, source_id);
        let c = chunks.last();
        if c.project_name == project && c.identifier == name && c.chunk_id != source_id {
            rest.push((c.chunk_id, c.file_path))
        } else {
            rest
        }
    }
}

/// The candidates in `file`.
pub open spec fn same_file(cs: Seq<Cand>, file: Seq<char>) -> Seq<Cand>
    decreases cs.len(),
{
    if cs.len() == 0 {
        seq![]
    } else {
        let rest = same_file(cs.drop_last(), file);
        if cs.last().1 == file {
            rest.push(cs.last())
        } else {
            rest
        }
    }
}

/// The candidates whose file the import `src_path` in `source_file` names.
pub open spec fn import_matched(cs: Seq<Cand>, src_path: Seq<char>, source_file: Seq<char>) -> Seq<Cand>
    decreases cs.len(),
{
    if cs.len() == 0 {
        seq![]
    } else {
        let rest = import_matched(cs.drop_last(), src_path, source_file);
        if import_matches_spec(cs.last().1, src_path, source_file) {
            rest.push(cs.last())
        } else {
            rest
        }
    }
}

/// Source path of the last import of `name` in a list.
pub open spec fn lookup_in_list(list: Seq<ImportView>, name: Seq<char>) -> Option<Seq<char>>
    decreases list.len(),
{
    if list.len() == 0 {
        None
    } else if list.last().imported_name == name {
        Some(list.last().source_path)
    } else {
        lookup_in_list(list.drop_last(), name)
    }
}

/// Source path under which `file` imports `name` (the last such import).
pub open spec fn import_lookup(imports: Seq<(Seq<char>, Seq<ImportView>)>, file: Seq<char>, name: Seq<char>) -> Option<Seq<char>>
    decreases imports.len(),
{
    if imports.len() == 0 {
        None
    } else if imports.last().0 == file && lookup_in_list(imports.last().1, name) is Some {
        lookup_in_list(imports.last().1, name)
    } else {
        import_lookup(imports.drop_last(), file, name)
    }
}

/// Tiered resolution of `target` referenced from chunk `source_id` in
/// `source_file` of `project`: `(chunk id, file, tier)`, or `None` for an
/// unknown, self, ambiguous or foreign target.
pub open spec fn resolve_target_spec(
    chunks: Seq<CodeChunkView>,
    imports: Seq<(Seq<char>, Seq<ImportView>)>,
    source_id: Seq<char>,
    source_file: Seq<char>,
    project: Seq<char>,
    target: Seq<char>,
) -> Option<(Seq<char>, Seq<char>, u8)> {
    let ns = candidates(chunks, project, target, source_id);
    let sf = same_file(ns, source_file);
    if ns.len() == 0 {
        None
    } else if sf.len() == 1 {
        Some((sf[0].0, sf[0].1, 1u8))
    } else if import_lookup(imports, source_file, target) is Some && import_matched(
        ns,
        import_lookup(imports, source_file, target)->0,
        source_file,
    ).len() == 1 {
        let m = import_matched(ns, import_lookup(imports, source_file, target)->0, source_file);
        Some((m[0].0, m[0].1, 2u8))
    } else if ns.len() == 1 {
        Some((ns[0].0, ns[0].1, 3u8))
    } else {
        None
    }
}

/// The last chunk with this id.
pub open spec fn chunk_by_id(chunks: Seq<CodeChunkView>, id: Seq<char>) -> Option<CodeChunkView>
    decreases chunks.len(),
{
    if chunks.len() == 0 {
        None
    } else if chunks.last().chunk_id == id {
        Some(chunks.last())
    } else {
        chunk_by_id(chunks.drop_last(), id)
    }
}

pub open spec fn make_edge_spec(caller: CodeChunkView, callee_id: Seq<char>, callee_ident: Seq<char>, callee_file: Seq<char>, tier: u8) -> CallEdgeView {
    CallEdgeView {
        edge_id: content_hash_of(call_edge_id_text(caller.chunk_id, callee_id)),
        caller_chunk_id: caller.chunk_id,
        callee_chunk_id: callee_id,
        caller_identifier: caller.identifier,
        callee_identifier: callee_ident,
        caller_file: caller.file_path,
        callee_file: callee_file,
        project_name: caller.project_name,
        resolution_tier: tier,
    }
}

/// Edges for the callees of one caller, in callee order.
pub open spec fn callee_edges(
    chunks: Seq<CodeChunkView>,
    imports: Seq<(Seq<char>, Seq<ImportView>)>,
    caller: CodeChunkView,
    callees: Seq<Seq<char>>,
) -> Seq<CallEdgeView>
    decreases callees.len(),
{
    if callees.len() == 0 {
        seq![]
    } else {
        let prefix = callee_edges(chunks, imports, caller, callees.drop_last());
        let name = callees.last();
        match resolve_target_spec(chunks, imports, caller.chunk_id, caller.file_path, caller.project_name, name) {
            Some((t, f, tier)) => prefix.push(make_edge_spec(caller, t, name, f, tier)),
            None => prefix,
        }
    }
}

/// Call edges for every (caller chunk id, callee names) entry, in order;
/// an entry whose caller is not a chunk contributes nothing.
pub open spec fn resolve_edges_spec(
    chunks: Seq<CodeChunkView>,
    calls: Seq<(Seq<char>, Seq<Seq<char>>)>,
    imports: Seq<(Seq<char>, Seq<ImportView>)>,
) -> Seq<CallEdgeView>
    decreases calls.len(),
{
    if calls.len() == 0 {
        seq![]
    } else {
        let prefix = resolve_edges_spec(chunks, calls.drop_last(), imports);
        match chunk_by_id(chunks, calls.last().0) {
            Some(caller) => prefix + callee_edges(chunks, imports, caller, calls.last().1),
            None => prefix,
        }
    }
}

// ---------------------------------------------------------------------------
// Resolution
// ---------------------------------------------------------------------------

fn candidates_vec(chunks: &[CodeChunk], project: &String, name: &String, source_id: &String) -> (r: Vec<(String, String)>)
    ensures
        cands_view(r@) == candidates(chunks_view(chunks@), project@, name@, source_id@),
{
    let ghost cv = chunks_view(chunks@);
    let mut r: Vec<(String, String)> = Vec::new();
    let mut i: usize = 0;
    while i < chunks.len()
        invariant
            i <= chunks.len(),
            cv == chunks_view(chunks@),
            cands_view(r@) == candidates(cv.take(i as int), project@, name@, source_id@),
        decreases chunks.len() - i,
    {
        assert(cv.take(i + 1).drop_last() == cv.take(i as int));
        assert(cv.take(i + 1).last() == chunks@[i as int]@);
        let c = &chunks[i];
        if c.project_name == *project && c.identifier == *name && !(c.chunk_id == *source_id) {
            let ghost before = r@;
            r.push((c.chunk_id.clone(), c.file_path.clone()));
            assert(cands_view(r@) =~= cands_view(before).push((c.chunk_id@, c.file_path@)));
        }
        i += 1;
    }
    assert(cv.take(chunks.len() as int) == cv);
    r
}

fn same_file_vec(cs: &Vec<(String, String)>, file: &String) -> (r: Vec<(String, String)>)
    ensures
        cands_view(r@) == same_file(cands_view(cs@), file@),
{
    let ghost cv = cands_view(cs@);
    let mut r: Vec<(String, String)> = Vec::new();
    let mut i: usize = 0;
    while i < cs.len()
        invariant
            i <= cs.len(),
            cv == cands_view(cs@),
            cands_view(r@) == same_file(cv.take(i as int), file@),
        decreases cs.len() - i,
    {
        assert(cv.take(i + 1).drop_last() == cv.take(i as int));
        assert(cv.take(i + 1).last() == (cs@[i as int].0@, cs@[i as int].1@));
        if cs[i].1 == *file {
            let ghost before = r@;
            r.push((cs[i].0.clone(), cs[i].1.clone()));
            assert(cands_view(r@) =~= cands_view(before).push(cv[i as int]));
        }
        i += 1;
    }
    assert(cv.take(cs.len() as int) == cv);
    r
}

fn import_matched_vec(cs: &Vec<(String, String)>, src_path: &String, source_file: &String) -> (r: Vec<(String, String)>)
    ensures
        cands_view(r@) == import_matched(cands_view(cs@), src_path@, source_file@),
{
    let ghost cv = cands_view(cs@);
    let mut r: Vec<(String, String)> = Vec::new();
    let mut i: usize = 0;
    while i < cs.len()
        invariant
            i <= cs.len(),
            cv == cands_view(cs@),
            cands_view(r@) == import_matched(cv.take(i as int), src_path@, source_file@),
        decreases cs.len() - i,
    {
        assert(cv.take(i + 1).drop_last() == cv.take(i as int));
        assert(cv.take(i + 1).last() == (cs@[i as int].0@, cs@[i as int].1@));
        if import_matches(cs[i].1.as_str(), src_path.as_str(), source_file.as_str()) {
            let ghost before = r@;
            r.push((cs[i].0.clone(), cs[i].1.clone()));
            assert(cands_view(r@) =~= cands_view(before).push(cv[i as int]));
        }
        i += 1;
    }
    assert(cv.take(cs.len() as int) == cv);
    r
}

fn lookup_in_list_vec(list: &Vec<ImportInfo>, name: &String) -> (r: Option<String>)
    ensures
        match r {
            Some(p) => lookup_in_list(import_list_view(list@), name@) == Some(p@),
            None => lookup_in_list(import_list_view(list@), name@) is None,
        },
{
    let ghost lv = import_list_view(list@);
    let mut i = list.len();
    assert(lv.take(i as int) == lv);
    while i > 0
        invariant
            i <= list.len(),
            lv == import_list_view(list@),
            lookup_in_list(lv, name@) == lookup_in_list(lv.take(i as int), name@),
        decreases i,
    {
        assert(lv.take(i as int).drop_last() == lv.take(i - 1));
        assert(lv.take(i as int).last() == list@[i - 1]@);
        if list[i - 1].imported_name == *name {
            return Some(list[i - 1].source_path.clone());
        }
        i -= 1;
    }
    None
}

fn import_lookup_vec(imports: &[(String, Vec<ImportInfo>)], file: &String, name: &String) -> (r: Option<String>)
    ensures
        match r {
            Some(p) => import_lookup(imports_view(imports@), file@, name@) == Some(p@),
            None => import_lookup(imports_view(imports@), file@, name@) is None,
        },
{
    let ghost iv = imports_view(imports@);
    let mut i = imports.len();
    assert(iv.take(i as int) == iv);
    while i > 0
        invariant
            i <= imports.len(),
            iv == imports_view(imports@),
            import_lookup(iv, file@, name@) == import_lookup(iv.take(i as int), file@, name@),
        decreases i,
    {
        assert(iv.take(i as int).drop_last() == iv.take(i - 1));
        assert(iv.take(i as int).last() == (imports@[i - 1].0@, import_list_view(imports@[i - 1].1@)));
        if imports[i - 1].0 == *file {
            match lookup_in_list_vec(&imports[i - 1].1, name) {
                Some(p) => {
                    return Some(p);
                },
                None => {},
            }
        }
        i -= 1;
    }
    None
}

/// Tiered resolution of a referenced identifier within the source's
/// project: `(target chunk id, target file, tier)`, or `None` for an
/// unknown, self, ambiguous or foreign target.
pub fn resolve_target(
    chunks: &[CodeChunk],
    imports: &[(String, Vec<ImportInfo>)],
    source_chunk_id: &String,
    source_file: &String,
    source_project: &String,
    target_name: &String,
) -> (r: Option<(String, String, u8)>)
    ensures
        match r {
            Some((t, f, tier)) => resolve_target_spec(
                chunks_view(chunks@),
                imports_view(imports@),
                source_chunk_id@,
                source_file@,
                source_project@,
                target_name@,
            ) == Some((t@, f@, tier)),
            None => resolve_target_spec(
                chunks_view(chunks@),
                imports_view(imports@),
                source_chunk_id@,
                source_file@,
                source_project@,
                target_name@,
            ) is None,
        },
{
    let ns = candidates_vec(chunks, source_project, target_name, source_chunk_id);
    if ns.len() == 0 {
        return None;
    }
    let sf = same_file_vec(&ns, source_file);
    if sf.len() == 1 {
        return Some((sf[0].0.clone(), sf[0].1.clone(), 1));
    }
    match import_lookup_vec(imports, source_file, target_name) {
        Some(src_path) => {
            let m = import_matched_vec(&ns, &src_path, source_file);
            if m.len() == 1 {
                return Some((m[0].0.clone(), m[0].1.clone(), 2));
            }
        },
        None => {},
    }
    if ns.len() == 1 {
        return Some((ns[0].0.clone(), ns[0].1.clone(), 3));
    }
    None
}

fn chunk_by_id_vec(chunks: &[CodeChunk], id: &String) -> (r: Option<usize>)
    ensures
        match r {
            Some(k) => k < chunks.len() && chunk_by_id(chunks_view(chunks@), id@) == Some(
                chunks@[k as int]@,
            ),
            None => chunk_by_id(chunks_view(chunks@), id@) is None,
        },
{
    let ghost cv = chunks_view(chunks@);
    let mut i = chunks.len();
    assert(cv.take(i as int) == cv);
    while i > 0
        invariant
            i <= chunks.len(),
            cv == chunks_view(chunks@),
            chunk_by_id(cv, id@) == chunk_by_id(cv.take(i as int), id@),
        decreases i,
    {
        assert(cv.take(i as int).drop_last() == cv.take(i - 1));
        assert(cv.take(i as int).last() == chunks@[i - 1]@);
        if chunks[i - 1].chunk_id == *id {
            return Some(i - 1);
        }
        i -= 1;
    }
    None
}

fn make_edge(caller: &CodeChunk, callee_chunk_id: &String, callee_identifier: &String, callee_file: &String, tier: u8) -> (r: CallEdge)
    ensures
        r@ == make_edge_spec(caller@, callee_chunk_id@, callee_identifier@, callee_file@, tier),
{
    CallEdge {
        edge_id: call_edge_id(caller.chunk_id.as_str(), callee_chunk_id.as_str()),
        caller_chunk_id: caller.chunk_id.clone(),
        callee_chunk_id: callee_chunk_id.clone(),
        caller_identifier: caller.identifier.clone(),
        callee_identifier: callee_identifier.clone(),
        caller_file: caller.file_path.clone(),
        callee_file: callee_file.clone(),
        project_name: caller.project_name.clone(),
        resolution_tier: tier,
    }
}

pub open spec fn edges_view(s: Seq<CallEdge>) -> Seq<CallEdgeView> {
    s.map_values(|e: CallEdge| e@)
}

/// Resolve call identifiers to call edges: for each `(caller chunk id,
/// callee names)` entry whose caller is a chunk, one edge per callee name
/// that resolves (same file, then import, then unique in the caller's
/// project), carrying the tier that decided it.
pub fn resolve_edges(
    chunks: &[CodeChunk],
    calls_map: &[(String, Vec<String>)],
    imports_by_file: &[(String, Vec<ImportInfo>)],
) -> (r: Vec<CallEdge>)
    ensures
        edges_view(r@) == resolve_edges_spec(
            chunks_view(chunks@),
            calls_view(calls_map@),
            imports_view(imports_by_file@),
        ),
{
    let ghost cv = chunks_view(chunks@);
    let ghost callv = calls_view(calls_map@);
    let ghost iv = imports_view(imports_by_file@);
    let mut edges: Vec<CallEdge> = Vec::new();
    let mut i: usize = 0;
    while i < calls_map.len()
        invariant
            i <= calls_map.len(),
            cv == chunks_view(chunks@),
            callv == calls_view(calls_map@),
            iv == imports_view(imports_by_file@),
            edges_view(edges@) == resolve_edges_spec(cv, callv.take(i as int), iv),
        decreases calls_map.len() - i,
    {
        assert(callv.take(i + 1).drop_last() == callv.take(i as int));
        assert(callv.take(i + 1).last() == callv[i as int]);
        let (caller_id, callees) = &calls_map[i];
        match chunk_by_id_vec(chunks, caller_id) {
            None => {},
            Some(k) => {
                let caller = &chunks[k];
                let ghost prefix = edges_view(edges@);
                let ghost names = names_view(callees@);
                let mut j: usize = 0;
                while j < callees.len()
                    invariant
                        i < calls_map.len(),
                        j <= callees.len(),
                        cv == chunks_view(chunks@),
                        iv == imports_view(imports_by_file@),
                        names == names_view(callees@),
                        edges_view(edges@) == prefix + callee_edges(cv, iv, caller@, names.take(j as int)),
                    decreases callees.len() - j,
                {
                    assert(names.take(j + 1).drop_last() == names.take(j as int));
                    assert(names.take(j + 1).last() == callees@[j as int]@);
                    let callee = &callees[j];
                    match resolve_target(chunks, imports_by_file, &caller.chunk_id, &caller.file_path, &caller.project_name, callee) {
                        Some((t, f, tier)) => {
                            let ghost before = edges@;
                            let e = make_edge(caller, &t, callee, &f, tier);
                            edges.push(e);
                            assert(edges_view(edges@) =~= edges_view(before).push(e@));
                        },
                        None => {},
                    }
                    j += 1;
                }
                assert(names.take(callees.len() as int) == names);
            },
        }
        i += 1;
    }
    assert(callv.take(calls_map.len() as int) == callv);
    edges
}


// ---------------------------------------------------------------------------
// Graph edges: structural relations, imports, containment
// ---------------------------------------------------------------------------

pub open spec fn graph_edges_view(s: Seq<GraphEdge>) -> Seq<GraphEdgeView> {
    s.map_values(|e: GraphEdge| e@)
}

/// Some edge of `p` has this id.
pub open spec fn has_edge_id(p: Seq<GraphEdgeView>, id: Seq<char>) -> bool {
    exists|k: int| 0 <= k < p.len() && #[trigger] p[k].edge_id == id
}

/// Append `e` unless an edge with its id was already emitted.
pub open spec fn push_unique(p: Seq<GraphEdgeView>, e: GraphEdgeView) -> Seq<GraphEdgeView> {
    if has_edge_id(p, e.edge_id) {
        p
    } else {
        p.push(e)
    }
}

pub open spec fn confidence_of(tier: u8) -> EdgeConfidence {
    if tier <= 2 {
        EdgeConfidence::Extracted
    } else {
        EdgeConfidence::Inferred
    }
}

/// The last file chunk with this path.
pub open spec fn file_by_path(files: Seq<FileChunkView>, path: Seq<char>) -> Option<FileChunkView>
    decreases files.len(),
{
    if files.len() == 0 {
        None
    } else if files.last().file_path == path {
        Some(files.last())
    } else {
        file_by_path(files.drop_last(), path)
    }
}

/// The last folder chunk with this path.
pub open spec fn folder_by_path(folders: Seq<FolderChunkView>, path: Seq<char>) -> Option<FolderChunkView>
    decreases folders.len(),
{
    if folders.len() == 0 {
        None
    } else if folders.last().folder_path == path {
        Some(folders.last())
    } else {
        folder_by_path(folders.drop_last(), path)
    }
}

pub open spec fn type_edge_spec(source: CodeChunkView, rel: TypeRelationView, target_id: Seq<char>, target_file: Seq<char>, tier: u8) -> GraphEdgeView {
    GraphEdgeView {
        edge_id: content_hash_of(edge_id_text(source.chunk_id, target_id, rel.relation, rel.context)),
        source_chunk_id: source.chunk_id,
        target_chunk_id: target_id,
        source_identifier: source.identifier,
        target_identifier: rel.target_name,
        source_file: source.file_path,
        target_file: target_file,
        project_name: source.project_name,
        relation: rel.relation,
        context: rel.context,
        confidence: confidence_of(tier),
    }
}

pub open spec fn type_edges_for(
    chunks: Seq<CodeChunkView>,
    imports: Seq<(Seq<char>, Seq<ImportView>)>,
    acc: Seq<GraphEdgeView>,
    source: CodeChunkView,
    rels: Seq<TypeRelationView>,
) -> Seq<GraphEdgeView>
    decreases rels.len(),
{
    if rels.len() == 0 {
        acc
    } else {
        let a = type_edges_for(chunks, imports, acc, source, rels.drop_last());
        let rel = rels.last();
        match resolve_target_spec(chunks, imports, source.chunk_id, source.file_path, source.project_name, rel.target_name) {
            Some((t, f, tier)) => push_unique(a, type_edge_spec(source, rel, t, f, tier)),
            None => a,
        }
    }
}

/// Type-relation edges for every (source chunk id, relations) entry, in
/// order; duplicates of an already emitted edge id are dropped.
pub open spec fn type_edges_spec(
    chunks: Seq<CodeChunkView>,
    rels: Seq<(Seq<char>, Seq<TypeRelationView>)>,
    imports: Seq<(Seq<char>, Seq<ImportView>)>,
) -> Seq<GraphEdgeView>
    decreases rels.len(),
{
    if rels.len() == 0 {
        seq![]
    } else {
        let p = type_edges_spec(chunks, rels.drop_last(), imports);
        match chunk_by_id(chunks, rels.last().0) {
            Some(source) => type_edges_for(chunks, imports, p, source, rels.last().1),
            None => p,
        }
    }
}

pub open spec fn import_relation(imp: ImportView) -> EdgeRelation {
    if imp.is_reexport {
        EdgeRelation::ReExports
    } else {
        EdgeRelation::Imports
    }
}

pub open spec fn import_edge_spec(src: FileChunkView, file: Seq<char>, imp: ImportView, target_id: Seq<char>, target_file: Seq<char>, tier: u8) -> GraphEdgeView {
    GraphEdgeView {
        edge_id: content_hash_of(edge_id_text(src.chunk_id, target_id, import_relation(imp), EdgeContext::Unspecified)),
        source_chunk_id: src.chunk_id,
        target_chunk_id: target_id,
        source_identifier: basename(file),
        target_identifier: imp.imported_name,
        source_file: file,
        target_file: target_file,
        project_name: src.project_name,
        relation: import_relation(imp),
        context: EdgeContext::Unspecified,
        confidence: confidence_of(tier),
    }
}

pub open spec fn import_edges_for(
    chunks: Seq<CodeChunkView>,
    imports: Seq<(Seq<char>, Seq<ImportView>)>,
    acc: Seq<GraphEdgeView>,
    file: Seq<char>,
    src: FileChunkView,
    list: Seq<ImportView>,
) -> Seq<GraphEdgeView>
    decreases list.len(),
{
    if list.len() == 0 {
        acc
    } else {
        let a = import_edges_for(chunks, imports, acc, file, src, list.drop_last());
        let imp = list.last();
        match resolve_target_spec(chunks, imports, src.chunk_id, file, src.project_name, imp.imported_name) {
            Some((t, f, tier)) => push_unique(a, import_edge_spec(src, file, imp, t, f, tier)),
            None => a,
        }
    }
}

/// Import edges for the `entries` prefix of the imports, resolved against
/// all of `imports`; files without a file chunk contribute nothing.
pub open spec fn import_edges_spec(
    chunks: Seq<CodeChunkView>,
    files: Seq<FileChunkView>,
    imports: Seq<(Seq<char>, Seq<ImportView>)>,
    entries: Seq<(Seq<char>, Seq<ImportView>)>,
) -> Seq<GraphEdgeView>
    decreases entries.len(),
{
    if entries.len() == 0 {
        seq![]
    } else {
        let p = import_edges_spec(chunks, files, imports, entries.drop_last());
        match file_by_path(files, entries.last().0) {
            Some(src) => import_edges_for(chunks, imports, p, entries.last().0, src, entries.last().1),
            None => p,
        }
    }
}

pub open spec fn direct_edge_spec(
    relation: EdgeRelation,
    source: (Seq<char>, Seq<char>, Seq<char>),
    target: (Seq<char>, Seq<char>, Seq<char>),
    project: Seq<char>,
) -> GraphEdgeView {
    GraphEdgeView {
        edge_id: content_hash_of(edge_id_text(source.0, target.0, relation, EdgeContext::Unspecified)),
        source_chunk_id: source.0,
        target_chunk_id: target.0,
        source_identifier: source.1,
        target_identifier: target.1,
        source_file: source.2,
        target_file: target.2,
        project_name: project,
        relation,
        context: EdgeContext::Unspecified,
        confidence: EdgeConfidence::Extracted,
    }
}

/// file ⊇ definition, one edge per code chunk whose file has a file chunk.
pub open spec fn file_contains_edges(chunks: Seq<CodeChunkView>, files: Seq<FileChunkView>) -> Seq<GraphEdgeView>
    decreases chunks.len(),
{
    if chunks.len() == 0 {
        seq![]
    } else {
        let p = file_contains_edges(chunks.drop_last(), files);
        let c = chunks.last();
        match file_by_path(files, c.file_path) {
            Some(fc) => p.push(direct_edge_spec(
                EdgeRelation::Contains,
                (fc.chunk_id, basename(fc.file_path), fc.file_path),
                (c.chunk_id, c.identifier, c.file_path),
                c.project_name,
            )),
            None => p,
        }
    }
}

/// folder ⊇ file, one edge per file chunk whose parent folder has a folder chunk.
pub open spec fn folder_contains_edges(files: Seq<FileChunkView>, folders: Seq<FolderChunkView>) -> Seq<GraphEdgeView>
    decreases files.len(),
{
    if files.len() == 0 {
        seq![]
    } else {
        let p = folder_contains_edges(files.drop_last(), folders);
        let fc = files.last();
        match parent_dir(fc.file_path) {
            Some(parent) => match folder_by_path(folders, parent) {
                Some(folder) => p.push(direct_edge_spec(
                    EdgeRelation::Contains,
                    (folder.chunk_id, basename(folder.folder_path), folder.folder_path),
                    (fc.chunk_id, basename(fc.file_path), fc.file_path),
                    fc.project_name,
                )),
                None => p,
            },
            None => p,
        }
    }
}

fn direct_edge(
    relation: EdgeRelation,
    source: (&String, &String, &String),
    target: (&String, &String, &String),
    project: &String,
) -> (r: GraphEdge)
    ensures
        r@ == direct_edge_spec(relation, (source.0@, source.1@, source.2@), (target.0@, target.1@, target.2@), project@),
{
    let (source_id, source_ident, source_file) = source;
    let (target_id, target_ident, target_file) = target;
    GraphEdge {
        edge_id: GraphEdge::deterministic_edge_id(source_id.as_str(), target_id.as_str(), relation, EdgeContext::Unspecified),
        source_chunk_id: source_id.clone(),
        target_chunk_id: target_id.clone(),
        source_identifier: source_ident.clone(),
        target_identifier: target_ident.clone(),
        source_file: source_file.clone(),
        target_file: target_file.clone(),
        project_name: project.clone(),
        relation,
        context: EdgeContext::Unspecified,
        confidence: EdgeConfidence::Extracted,
    }
}

fn file_by_path_vec(files: &[FileChunk], path: &String) -> (r: Option<usize>)
    ensures
        match r {
            Some(k) => k < files.len() && file_by_path(files_view(files@), path@) == Some(files@[k as int]@),
            None => file_by_path(files_view(files@), path@) is None,
        },
{
    let ghost fv = files_view(files@);
    let mut i = files.len();
    assert(fv.take(i as int) == fv);
    while i > 0
        invariant
            i <= files.len(),
            fv == files_view(files@),
            file_by_path(fv, path@) == file_by_path(fv.take(i as int), path@),
        decreases i,
    {
        assert(fv.take(i as int).drop_last() == fv.take(i - 1));
        assert(fv.take(i as int).last() == files@[i - 1]@);
        if files[i - 1].file_path == *path {
            return Some(i - 1);
        }
        i -= 1;
    }
    None
}

fn folder_by_path_vec(folders: &[FolderChunk], path: &String) -> (r: Option<usize>)
    ensures
        match r {
            Some(k) => k < folders.len() && folder_by_path(folders_view(folders@), path@) == Some(folders@[k as int]@),
            None => folder_by_path(folders_view(folders@), path@) is None,
        },
{
    let ghost fv = folders_view(folders@);
    let mut i = folders.len();
    assert(fv.take(i as int) == fv);
    while i > 0
        invariant
            i <= folders.len(),
            fv == folders_view(folders@),
            folder_by_path(fv, path@) == folder_by_path(fv.take(i as int), path@),
        decreases i,
    {
        assert(fv.take(i as int).drop_last() == fv.take(i - 1));
        assert(fv.take(i as int).last() == folders@[i - 1]@);
        if folders[i - 1].folder_path == *path {
            return Some(i - 1);
        }
        i -= 1;
    }
    None
}

fn path_basename(p: &String) -> (r: String)
    ensures
        r@ == basename(p@),
{
    string_of(&crate::import_match::basename_vec(&chars_of(p.as_str())))
}

/// Containment edges from the chunk hierarchy: file ⊇ definition for every
/// code chunk whose file has a file chunk, then folder ⊇ file for every file
/// chunk whose parent folder has a folder chunk.
pub fn build_contains_edges(
    code_chunks: &[CodeChunk],
    file_chunks: &[FileChunk],
    folder_chunks: &[FolderChunk],
) -> (r: Vec<GraphEdge>)
    ensures
        graph_edges_view(r@) == file_contains_edges(chunks_view(code_chunks@), files_view(file_chunks@))
            + folder_contains_edges(files_view(file_chunks@), folders_view(folder_chunks@)),
{
    let ghost cv = chunks_view(code_chunks@);
    let ghost fv = files_view(file_chunks@);
    let ghost dv = folders_view(folder_chunks@);
    let mut edges: Vec<GraphEdge> = Vec::new();
    let mut i: usize = 0;
    while i < code_chunks.len()
        invariant
            i <= code_chunks.len(),
            cv == chunks_view(code_chunks@),
            fv == files_view(file_chunks@),
            graph_edges_view(edges@) == file_contains_edges(cv.take(i as int), fv),
        decreases code_chunks.len() - i,
    {
        assert(cv.take(i + 1).drop_last() == cv.take(i as int));
        assert(cv.take(i + 1).last() == code_chunks@[i as int]@);
        let code = &code_chunks[i];
        match file_by_path_vec(file_chunks, &code.file_path) {
            Some(k) => {
                let fc = &file_chunks[k];
                let b = path_basename(&fc.file_path);
                let ghost before = edges@;
                let e = direct_edge(
                    EdgeRelation::Contains,
                    (&fc.chunk_id, &b, &fc.file_path),
                    (&code.chunk_id, &code.identifier, &code.file_path),
                    &code.project_name,
                );
                edges.push(e);
                assert(graph_edges_view(edges@) =~= graph_edges_view(before).push(e@));
            },
            None => {},
        }
        i += 1;
    }
    assert(cv.take(code_chunks.len() as int) == cv);
    let ghost head = graph_edges_view(edges@);
    let mut j: usize = 0;
    while j < file_chunks.len()
        invariant
            j <= file_chunks.len(),
            fv == files_view(file_chunks@),
            dv == folders_view(folder_chunks@),
            graph_edges_view(edges@) == head + folder_contains_edges(fv.take(j as int), dv),
        decreases file_chunks.len() - j,
    {
        assert(fv.take(j + 1).drop_last() == fv.take(j as int));
        assert(fv.take(j + 1).last() == file_chunks@[j as int]@);
        let fc = &file_chunks[j];
        match crate::import_match::parent_dir_vec(&chars_of(fc.file_path.as_str())) {
            Some(pv) => {
                let parent = string_of(&pv);
                match folder_by_path_vec(folder_chunks, &parent) {
                    Some(k) => {
                        let folder = &folder_chunks[k];
                        let fb = path_basename(&folder.folder_path);
                        let b = path_basename(&fc.file_path);
                        let ghost before = edges@;
                        let e = direct_edge(
                            EdgeRelation::Contains,
                            (&folder.chunk_id, &fb, &folder.folder_path),
                            (&fc.chunk_id, &b, &fc.file_path),
                            &fc.project_name,
                        );
                        edges.push(e);
                        assert(graph_edges_view(edges@) =~= graph_edges_view(before).push(e@));
                    },
                    None => {},
                }
            },
            None => {},
        }
        j += 1;
    }
    assert(fv.take(file_chunks.len() as int) == fv);
    edges
}

fn has_edge_id_vec(edges: &Vec<GraphEdge>, id: &String) -> (r: bool)
    ensures
        r == has_edge_id(graph_edges_view(edges@), id@),
{
    let ghost ev = graph_edges_view(edges@);
    let mut i: usize = 0;
    while i < edges.len()
        invariant
            i <= edges.len(),
            ev == graph_edges_view(edges@),
            forall|k: int| 0 <= k < i ==> ev[k].edge_id != id@,
        decreases edges.len() - i,
    {
        if edges[i].edge_id == *id {
            assert(ev[i as int].edge_id == id@);
            return true;
        }
        i += 1;
    }
    false
}

fn push_unique_vec(edges: &mut Vec<GraphEdge>, e: GraphEdge)
    ensures
        graph_edges_view(final(edges)@) == push_unique(graph_edges_view(old(edges)@), e@),
{
    if !has_edge_id_vec(edges, &e.edge_id) {
        let ghost before = edges@;
        edges.push(e);
        assert(graph_edges_view(edges@) =~= graph_edges_view(before).push(e@));
    }
}

fn confidence(tier: u8) -> (c: EdgeConfidence)
    ensures
        c == confidence_of(tier),
{
    if tier <= 2 {
        EdgeConfidence::Extracted
    } else {
        EdgeConfidence::Inferred
    }
}

/// Import edges: for each `(file, imports)` entry whose file has a file
/// chunk, each import whose name resolves (same tiers as calls, within the
/// importing file's project) becomes an edge from the file chunk to the
/// imported symbol's chunk — `ReExports` for a re-export, else `Imports` —
/// skipping an edge whose id was already emitted.
pub fn build_import_edges(
    code_chunks: &[CodeChunk],
    file_chunks: &[FileChunk],
    imports_by_file: &[(String, Vec<ImportInfo>)],
) -> (r: Vec<GraphEdge>)
    ensures
        graph_edges_view(r@) == import_edges_spec(
            chunks_view(code_chunks@),
            files_view(file_chunks@),
            imports_view(imports_by_file@),
            imports_view(imports_by_file@),
        ),
{
    let ghost cv = chunks_view(code_chunks@);
    let ghost fv = files_view(file_chunks@);
    let ghost iv = imports_view(imports_by_file@);
    let mut edges: Vec<GraphEdge> = Vec::new();
    let mut i: usize = 0;
    while i < imports_by_file.len()
        invariant
            i <= imports_by_file.len(),
            cv == chunks_view(code_chunks@),
            fv == files_view(file_chunks@),
            iv == imports_view(imports_by_file@),
            graph_edges_view(edges@) == import_edges_spec(cv, fv, iv, iv.take(i as int)),
        decreases imports_by_file.len() - i,
    {
        assert(iv.take(i + 1).drop_last() == iv.take(i as int));
        assert(iv.take(i + 1).last() == iv[i as int]);
        let (file, imports) = &imports_by_file[i];
        match file_by_path_vec(file_chunks, file) {
            None => {},
            Some(k) => {
                let src = &file_chunks[k];
                let ghost acc = graph_edges_view(edges@);
                let ghost lv = import_list_view(imports@);
                let mut j: usize = 0;
                while j < imports.len()
                    invariant
                        i < imports_by_file.len(),
                        j <= imports.len(),
                        cv == chunks_view(code_chunks@),
                        iv == imports_view(imports_by_file@),
                        lv == import_list_view(imports@),
                        graph_edges_view(edges@) == import_edges_for(cv, iv, acc, file@, src@, lv.take(j as int)),
                    decreases imports.len() - j,
                {
                    assert(lv.take(j + 1).drop_last() == lv.take(j as int));
                    assert(lv.take(j + 1).last() == imports@[j as int]@);
                    let imp = &imports[j];
                    match resolve_target(code_chunks, imports_by_file, &src.chunk_id, file, &src.project_name, &imp.imported_name) {
                        Some((tid, tfile, tier)) => {
                            let relation = if imp.is_reexport {
                                EdgeRelation::ReExports
                            } else {
                                EdgeRelation::Imports
                            };
                            let e = GraphEdge {
                                edge_id: GraphEdge::deterministic_edge_id(src.chunk_id.as_str(), tid.as_str(), relation, EdgeContext::Unspecified),
                                source_chunk_id: src.chunk_id.clone(),
                                target_chunk_id: tid,
                                source_identifier: path_basename(file),
                                target_identifier: imp.imported_name.clone(),
                                source_file: file.clone(),
                                target_file: tfile,
                                project_name: src.project_name.clone(),
                                relation,
                                context: EdgeContext::Unspecified,
                                confidence: confidence(tier),
                            };
                            push_unique_vec(&mut edges, e);
                        },
                        None => {},
                    }
                    j += 1;
                }
                assert(lv.take(imports.len() as int) == lv);
            },
        }
        i += 1;
    }
    assert(iv.take(imports_by_file.len() as int) == iv);
    edges
}

/// Type-relation edges: for each `(source chunk id, relations)` entry whose
/// source is a chunk, each relation whose target name resolves (same tiers
/// as calls, within the source's project) becomes an edge carrying the
/// relation and its context — `Extracted` for tiers 1 and 2, `Inferred` for
/// tier 3 — skipping an edge whose id was already emitted.
pub fn resolve_type_edges(
    chunks: &[CodeChunk],
    type_relations: &[(String, Vec<TypeRelation>)],
    imports_by_file: &[(String, Vec<ImportInfo>)],
) -> (r: Vec<GraphEdge>)
    ensures
        graph_edges_view(r@) == type_edges_spec(
            chunks_view(chunks@),
            type_rels_view(type_relations@),
            imports_view(imports_by_file@),
        ),
{
    let ghost cv = chunks_view(chunks@);
    let ghost tv = type_rels_view(type_relations@);
    let ghost iv = imports_view(imports_by_file@);
    let mut edges: Vec<GraphEdge> = Vec::new();
    let mut i: usize = 0;
    while i < type_relations.len()
        invariant
            i <= type_relations.len(),
            cv == chunks_view(chunks@),
            tv == type_rels_view(type_relations@),
            iv == imports_view(imports_by_file@),
            graph_edges_view(edges@) == type_edges_spec(cv, tv.take(i as int), iv),
        decreases type_relations.len() - i,
    {
        assert(tv.take(i + 1).drop_last() == tv.take(i as int));
        assert(tv.take(i + 1).last() == tv[i as int]);
        let (source_id, rels) = &type_relations[i];
        match chunk_by_id_vec(chunks, source_id) {
            None => {},
            Some(k) => {
                let source = &chunks[k];
                let ghost acc = graph_edges_view(edges@);
                let ghost rv = relations_view(rels@);
                let mut j: usize = 0;
                while j < rels.len()
                    invariant
                        i < type_relations.len(),
                        j <= rels.len(),
                        cv == chunks_view(chunks@),
                        iv == imports_view(imports_by_file@),
                        rv == relations_view(rels@),
                        graph_edges_view(edges@) == type_edges_for(cv, iv, acc, source@, rv.take(j as int)),
                    decreases rels.len() - j,
                {
                    assert(rv.take(j + 1).drop_last() == rv.take(j as int));
                    assert(rv.take(j + 1).last() == rels@[j as int]@);
                    let rel = &rels[j];
                    match resolve_target(chunks, imports_by_file, &source.chunk_id, &source.file_path, &source.project_name, &rel.target_name) {
                        Some((tid, tfile, tier)) => {
                            let e = GraphEdge {
                                edge_id: GraphEdge::deterministic_edge_id(source.chunk_id.as_str(), tid.as_str(), rel.relation, rel.context),
                                source_chunk_id: source.chunk_id.clone(),
                                target_chunk_id: tid,
                                source_identifier: source.identifier.clone(),
                                target_identifier: rel.target_name.clone(),
                                source_file: source.file_path.clone(),
                                target_file: tfile,
                                project_name: source.project_name.clone(),
                                relation: rel.relation,
                                context: rel.context,
                                confidence: confidence(tier),
                            };
                            push_unique_vec(&mut edges, e);
                        },
                        None => {},
                    }
                    j += 1;
                }
                assert(rv.take(rels.len() as int) == rv);
            },
        }
        i += 1;
    }
    assert(tv.take(type_relations.len() as int) == tv);
    edges
}


// ---------------------------------------------------------------------------
// Project scoping
// ---------------------------------------------------------------------------

/// Some code chunk with this id belongs to `project`.
pub open spec fn chunk_in_project(chunks: Seq<CodeChunkView>, id: Seq<char>, project: Seq<char>) -> bool {
    exists|k: int| 0 <= k < chunks.len() && (#[trigger] chunks[k]).chunk_id == id && chunks[k].project_name == project
}

/// Some file chunk with this id belongs to `project`.
pub open spec fn file_in_project(files: Seq<FileChunkView>, id: Seq<char>, project: Seq<char>) -> bool {
    exists|k: int| 0 <= k < files.len() && (#[trigger] files[k]).chunk_id == id && files[k].project_name == project
}

/// Both ends of a call edge are chunks of the edge's project.
pub open spec fn call_edge_scoped(chunks: Seq<CodeChunkView>, e: CallEdgeView) -> bool {
    chunk_in_project(chunks, e.caller_chunk_id, e.project_name) && chunk_in_project(chunks, e.callee_chunk_id, e.project_name)
}

/// Both ends of a type-relation edge are chunks of the edge's project.
pub open spec fn type_edge_scoped(chunks: Seq<CodeChunkView>, e: GraphEdgeView) -> bool {
    chunk_in_project(chunks, e.source_chunk_id, e.project_name) && chunk_in_project(chunks, e.target_chunk_id, e.project_name)
}

/// An import edge leads from a file chunk of its project to a code chunk
/// of the same project.
pub open spec fn import_edge_scoped(chunks: Seq<CodeChunkView>, files: Seq<FileChunkView>, e: GraphEdgeView) -> bool {
    file_in_project(files, e.source_chunk_id, e.project_name) && chunk_in_project(chunks, e.target_chunk_id, e.project_name)
}

pub open spec fn cands_in_project(cs: Seq<Cand>, chunks: Seq<CodeChunkView>, project: Seq<char>) -> bool {
    forall|i: int| 0 <= i < cs.len() ==> chunk_in_project(chunks, (#[trigger] cs[i]).0, project)
}

proof fn lemma_candidates_in_project(chunks: Seq<CodeChunkView>, project: Seq<char>, name: Seq<char>, source_id: Seq<char>)
    ensures
        cands_in_project(candidates(chunks, project, name, source_id), chunks, project),
    decreases chunks.len(),
{
    if chunks.len() > 0 {
        let init = chunks.drop_last();
        lemma_candidates_in_project(init, project, name, source_id);
        let rest = candidates(init, project, name, source_id);
        let cs = candidates(chunks, project, name, source_id);
        assert forall|i: int| 0 <= i < cs.len() implies chunk_in_project(chunks, (#[trigger] cs[i]).0, project) by {
            if i < rest.len() {
                assert(cs[i] == rest[i]);
                let k = choose|k: int| 0 <= k < init.len() && (#[trigger] init[k]).chunk_id == rest[i].0 && init[k].project_name == project;
                assert(chunks[k] == init[k]);
            } else {
                assert(chunks[chunks.len() - 1] == chunks.last());
            }
        }
    }
}

proof fn lemma_same_file_in_project(cs: Seq<Cand>, file: Seq<char>, chunks: Seq<CodeChunkView>, project: Seq<char>)
    requires
        cands_in_project(cs, chunks, project),
    ensures
        cands_in_project(same_file(cs, file), chunks, project),
    decreases cs.len(),
{
    if cs.len() > 0 {
        let init = cs.drop_last();
        assert(cands_in_project(init, chunks, project)) by {
            assert forall|i: int| 0 <= i < init.len() implies chunk_in_project(chunks, (#[trigger] init[i]).0, project) by {
                assert(init[i] == cs[i]);
            }
        }
        lemma_same_file_in_project(init, file, chunks, project);
        assert(chunk_in_project(chunks, cs[cs.len() - 1].0, project));
    }
}

proof fn lemma_import_matched_in_project(cs: Seq<Cand>, src_path: Seq<char>, source_file: Seq<char>, chunks: Seq<CodeChunkView>, project: Seq<char>)
    requires
        cands_in_project(cs, chunks, project),
    ensures
        cands_in_project(import_matched(cs, src_path, source_file), chunks, project),
    decreases cs.len(),
{
    if cs.len() > 0 {
        let init = cs.drop_last();
        assert(cands_in_project(init, chunks, project)) by {
            assert forall|i: int| 0 <= i < init.len() implies chunk_in_project(chunks, (#[trigger] init[i]).0, project) by {
                assert(init[i] == cs[i]);
            }
        }
        lemma_import_matched_in_project(init, src_path, source_file, chunks, project);
        assert(chunk_in_project(chunks, cs[cs.len() - 1].0, project));
    }
}

/// A resolved target is always a chunk of the source's own project.
pub proof fn lemma_resolved_target_in_project(
    chunks: Seq<CodeChunkView>,
    imports: Seq<(Seq<char>, Seq<ImportView>)>,
    source_id: Seq<char>,
    source_file: Seq<char>,
    project: Seq<char>,
    target: Seq<char>,
)
    ensures
        match resolve_target_spec(chunks, imports, source_id, source_file, project, target) {
            Some(r) => chunk_in_project(chunks, r.0, project),
            None => true,
        },
{
    let ns = candidates(chunks, project, target, source_id);
    lemma_candidates_in_project(chunks, project, target, source_id);
    lemma_same_file_in_project(ns, source_file, chunks, project);
    let sf = same_file(ns, source_file);
    if ns.len() != 0 && sf.len() != 1 {
        let l = import_lookup(imports, source_file, target);
        if l is Some {
            lemma_import_matched_in_project(ns, l->0, source_file, chunks, project);
            let m = import_matched(ns, l->0, source_file);
            if m.len() == 1 {
                assert(chunk_in_project(chunks, m[0].0, project));
            } else if ns.len() == 1 {
                assert(chunk_in_project(chunks, ns[0].0, project));
            }
        } else if ns.len() == 1 {
            assert(chunk_in_project(chunks, ns[0].0, project));
        }
    } else if ns.len() != 0 {
        assert(chunk_in_project(chunks, sf[0].0, project));
    }
}

proof fn lemma_chunk_by_id_in(chunks: Seq<CodeChunkView>, id: Seq<char>)
    ensures
        match chunk_by_id(chunks, id) {
            Some(c) => c.chunk_id == id && chunk_in_project(chunks, c.chunk_id, c.project_name),
            None => true,
        },
    decreases chunks.len(),
{
    if chunks.len() > 0 {
        let init = chunks.drop_last();
        lemma_chunk_by_id_in(init, id);
        if chunks.last().chunk_id == id {
            assert(chunks[chunks.len() - 1] == chunks.last());
        } else if let Some(c) = chunk_by_id(init, id) {
            let k = choose|k: int| 0 <= k < init.len() && (#[trigger] init[k]).chunk_id == c.chunk_id && init[k].project_name == c.project_name;
            assert(chunks[k] == init[k]);
        }
    }
}

proof fn lemma_file_by_path_in(files: Seq<FileChunkView>, path: Seq<char>)
    ensures
        match file_by_path(files, path) {
            Some(f) => file_in_project(files, f.chunk_id, f.project_name),
            None => true,
        },
    decreases files.len(),
{
    if files.len() > 0 {
        let init = files.drop_last();
        lemma_file_by_path_in(init, path);
        if files.last().file_path == path {
            assert(files[files.len() - 1] == files.last());
        } else if let Some(f) = file_by_path(init, path) {
            let k = choose|k: int| 0 <= k < init.len() && (#[trigger] init[k]).chunk_id == f.chunk_id && init[k].project_name == f.project_name;
            assert(files[k] == init[k]);
        }
    }
}

proof fn lemma_callee_edges_scoped(
    chunks: Seq<CodeChunkView>,
    imports: Seq<(Seq<char>, Seq<ImportView>)>,
    caller: CodeChunkView,
    callees: Seq<Seq<char>>,
)
    requires
        chunk_in_project(chunks, caller.chunk_id, caller.project_name),
    ensures
        forall|i: int| 0 <= i < callee_edges(chunks, imports, caller, callees).len() ==> call_edge_scoped(
            chunks,
            #[trigger] callee_edges(chunks, imports, caller, callees)[i],
        ),
    decreases callees.len(),
{
    if callees.len() > 0 {
        lemma_callee_edges_scoped(chunks, imports, caller, callees.drop_last());
        lemma_resolved_target_in_project(chunks, imports, caller.chunk_id, caller.file_path, caller.project_name, callees.last());
        let prefix = callee_edges(chunks, imports, caller, callees.drop_last());
        let all = callee_edges(chunks, imports, caller, callees);
        assert forall|i: int| 0 <= i < all.len() implies call_edge_scoped(chunks, #[trigger] all[i]) by {
            if i < prefix.len() {
                assert(all[i] == prefix[i]);
            }
        }
    }
}

/// Call edges never link projects: the caller and the callee of every
/// resolved call edge are both chunks of the edge's project.
pub proof fn lemma_call_edges_project_scoped(
    chunks: Seq<CodeChunkView>,
    calls: Seq<(Seq<char>, Seq<Seq<char>>)>,
    imports: Seq<(Seq<char>, Seq<ImportView>)>,
)
    ensures
        forall|i: int| 0 <= i < resolve_edges_spec(chunks, calls, imports).len() ==> call_edge_scoped(
            chunks,
            #[trigger] resolve_edges_spec(chunks, calls, imports)[i],
        ),
    decreases calls.len(),
{
    if calls.len() > 0 {
        lemma_call_edges_project_scoped(chunks, calls.drop_last(), imports);
        lemma_chunk_by_id_in(chunks, calls.last().0);
        let prefix = resolve_edges_spec(chunks, calls.drop_last(), imports);
        let all = resolve_edges_spec(chunks, calls, imports);
        if let Some(caller) = chunk_by_id(chunks, calls.last().0) {
            lemma_callee_edges_scoped(chunks, imports, caller, calls.last().1);
            let tail = callee_edges(chunks, imports, caller, calls.last().1);
            assert forall|i: int| 0 <= i < all.len() implies call_edge_scoped(chunks, #[trigger] all[i]) by {
                if i < prefix.len() {
                    assert(all[i] == prefix[i]);
                } else {
                    assert(all[i] == tail[i - prefix.len()]);
                }
            }
        }
    }
}

proof fn lemma_type_edges_for_scoped(
    chunks: Seq<CodeChunkView>,
    imports: Seq<(Seq<char>, Seq<ImportView>)>,
    acc: Seq<GraphEdgeView>,
    source: CodeChunkView,
    rels: Seq<TypeRelationView>,
)
    requires
        chunk_in_project(chunks, source.chunk_id, source.project_name),
        forall|i: int| 0 <= i < acc.len() ==> type_edge_scoped(chunks, #[trigger] acc[i]),
    ensures
        forall|i: int| 0 <= i < type_edges_for(chunks, imports, acc, source, rels).len() ==> type_edge_scoped(
            chunks,
            #[trigger] type_edges_for(chunks, imports, acc, source, rels)[i],
        ),
    decreases rels.len(),
{
    if rels.len() > 0 {
        lemma_type_edges_for_scoped(chunks, imports, acc, source, rels.drop_last());
        let rel = rels.last();
        lemma_resolved_target_in_project(chunks, imports, source.chunk_id, source.file_path, source.project_name, rel.target_name);
        let a = type_edges_for(chunks, imports, acc, source, rels.drop_last());
        let all = type_edges_for(chunks, imports, acc, source, rels);
        assert forall|i: int| 0 <= i < all.len() implies type_edge_scoped(chunks, #[trigger] all[i]) by {
            if i < a.len() {
                assert(all[i] == a[i]);
            }
        }
    }
}

/// Type-relation edges never link projects: both ends of every edge are
/// chunks of the edge's project.
pub proof fn lemma_type_edges_project_scoped(
    chunks: Seq<CodeChunkView>,
    rels: Seq<(Seq<char>, Seq<TypeRelationView>)>,
    imports: Seq<(Seq<char>, Seq<ImportView>)>,
)
    ensures
        forall|i: int| 0 <= i < type_edges_spec(chunks, rels, imports).len() ==> type_edge_scoped(
            chunks,
            #[trigger] type_edges_spec(chunks, rels, imports)[i],
        ),
    decreases rels.len(),
{
    if rels.len() > 0 {
        lemma_type_edges_project_scoped(chunks, rels.drop_last(), imports);
        lemma_chunk_by_id_in(chunks, rels.last().0);
        let p = type_edges_spec(chunks, rels.drop_last(), imports);
        if let Some(source) = chunk_by_id(chunks, rels.last().0) {
            lemma_type_edges_for_scoped(chunks, imports, p, source, rels.last().1);
        }
    }
}

proof fn lemma_import_edges_for_scoped(
    chunks: Seq<CodeChunkView>,
    files: Seq<FileChunkView>,
    imports: Seq<(Seq<char>, Seq<ImportView>)>,
    acc: Seq<GraphEdgeView>,
    file: Seq<char>,
    src: FileChunkView,
    list: Seq<ImportView>,
)
    requires
        file_in_project(files, src.chunk_id, src.project_name),
        forall|i: int| 0 <= i < acc.len() ==> import_edge_scoped(chunks, files, #[trigger] acc[i]),
    ensures
        forall|i: int| 0 <= i < import_edges_for(chunks, imports, acc, file, src, list).len() ==> import_edge_scoped(
            chunks,
            files,
            #[trigger] import_edges_for(chunks, imports, acc, file, src, list)[i],
        ),
    decreases list.len(),
{
    if list.len() > 0 {
        lemma_import_edges_for_scoped(chunks, files, imports, acc, file, src, list.drop_last());
        let imp = list.last();
        lemma_resolved_target_in_project(chunks, imports, src.chunk_id, file, src.project_name, imp.imported_name);
        let a = import_edges_for(chunks, imports, acc, file, src, list.drop_last());
        let all = import_edges_for(chunks, imports, acc, file, src, list);
        assert forall|i: int| 0 <= i < all.len() implies import_edge_scoped(chunks, files, #[trigger] all[i]) by {
            if i < a.len() {
                assert(all[i] == a[i]);
            }
        }
    }
}

/// Import edges never link projects: every edge leads from a file chunk of
/// its project to a code chunk of the same project.
pub proof fn lemma_import_edges_project_scoped(
    chunks: Seq<CodeChunkView>,
    files: Seq<FileChunkView>,
    imports: Seq<(Seq<char>, Seq<ImportView>)>,
    entries: Seq<(Seq<char>, Seq<ImportView>)>,
)
    ensures
        forall|i: int| 0 <= i < import_edges_spec(chunks, files, imports, entries).len() ==> import_edge_scoped(
            chunks,
            files,
            #[trigger] import_edges_spec(chunks, files, imports, entries)[i],
        ),
    decreases entries.len(),
{
    if entries.len() > 0 {
        lemma_import_edges_project_scoped(chunks, files, imports, entries.drop_last());
        lemma_file_by_path_in(files, entries.last().0);
        let p = import_edges_spec(chunks, files, imports, entries.drop_last());
        if let Some(src) = file_by_path(files, entries.last().0) {
            lemma_import_edges_for_scoped(chunks, files, imports, p, entries.last().0, src, entries.last().1);
        }
    }
}

// ---------------------------------------------------------------------------
// Edge ids are unique
// ---------------------------------------------------------------------------

/// No two edges share an id.
pub open spec fn unique_edge_ids(p: Seq<GraphEdgeView>) -> bool {
    forall|a: int, b: int| 0 <= a < b < p.len() ==> (#[trigger] p[a]).edge_id != (#[trigger] p[b]).edge_id
}

proof fn lemma_push_unique_keeps(p: Seq<GraphEdgeView>, e: GraphEdgeView)
    requires
        unique_edge_ids(p),
    ensures
        unique_edge_ids(push_unique(p, e)),
{
    if !has_edge_id(p, e.edge_id) {
        let q = p.push(e);
        assert forall|a: int, b: int| 0 <= a < b < q.len() implies (#[trigger] q[a]).edge_id != (#[trigger] q[b]).edge_id by {
            if b == p.len() {
                assert(q[a] == p[a]);
                assert(!(p[a].edge_id == e.edge_id));
            } else {
                assert(q[a] == p[a] && q[b] == p[b]);
            }
        }
    }
}

proof fn lemma_type_edges_for_unique(
    chunks: Seq<CodeChunkView>,
    imports: Seq<(Seq<char>, Seq<ImportView>)>,
    acc: Seq<GraphEdgeView>,
    source: CodeChunkView,
    rels: Seq<TypeRelationView>,
)
    requires
        unique_edge_ids(acc),
    ensures
        unique_edge_ids(type_edges_for(chunks, imports, acc, source, rels)),
    decreases rels.len(),
{
    if rels.len() > 0 {
        lemma_type_edges_for_unique(chunks, imports, acc, source, rels.drop_last());
        let a = type_edges_for(chunks, imports, acc, source, rels.drop_last());
        let rel = rels.last();
        match resolve_target_spec(chunks, imports, source.chunk_id, source.file_path, source.project_name, rel.target_name) {
            Some((t, f, tier)) => lemma_push_unique_keeps(a, type_edge_spec(source, rel, t, f, tier)),
            None => {},
        }
    }
}

/// Type-relation edges are emitted once per id: no two share an edge id.
pub proof fn lemma_type_edge_ids_unique(
    chunks: Seq<CodeChunkView>,
    rels: Seq<(Seq<char>, Seq<TypeRelationView>)>,
    imports: Seq<(Seq<char>, Seq<ImportView>)>,
)
    ensures
        unique_edge_ids(type_edges_spec(chunks, rels, imports)),
    decreases rels.len(),
{
    if rels.len() > 0 {
        lemma_type_edge_ids_unique(chunks, rels.drop_last(), imports);
        let p = type_edges_spec(chunks, rels.drop_last(), imports);
        if let Some(source) = chunk_by_id(chunks, rels.last().0) {
            lemma_type_edges_for_unique(chunks, imports, p, source, rels.last().1);
        }
    }
}

proof fn lemma_import_edges_for_unique(
    chunks: Seq<CodeChunkView>,
    imports: Seq<(Seq<char>, Seq<ImportView>)>,
    acc: Seq<GraphEdgeView>,
    file: Seq<char>,
    src: FileChunkView,
    list: Seq<ImportView>,
)
    requires
        unique_edge_ids(acc),
    ensures
        unique_edge_ids(import_edges_for(chunks, imports, acc, file, src, list)),
    decreases list.len(),
{
    if list.len() > 0 {
        lemma_import_edges_for_unique(chunks, imports, acc, file, src, list.drop_last());
        let a = import_edges_for(chunks, imports, acc, file, src, list.drop_last());
        let imp = list.last();
        match resolve_target_spec(chunks, imports, src.chunk_id, file, src.project_name, imp.imported_name) {
            Some((t, f, tier)) => lemma_push_unique_keeps(a, import_edge_spec(src, file, imp, t, f, tier)),
            None => {},
        }
    }
}

/// Import edges are emitted once per id: no two share an edge id.
pub proof fn lemma_import_edge_ids_unique(
    chunks: Seq<CodeChunkView>,
    files: Seq<FileChunkView>,
    imports: Seq<(Seq<char>, Seq<ImportView>)>,
    entries: Seq<(Seq<char>, Seq<ImportView>)>,
)
    ensures
        unique_edge_ids(import_edges_spec(chunks, files, imports, entries)),
    decreases entries.len(),
{
    if entries.len() > 0 {
        lemma_import_edge_ids_unique(chunks, files, imports, entries.drop_last());
        let p = import_edges_spec(chunks, files, imports, entries.drop_last());
        if let Some(src) = file_by_path(files, entries.last().0) {
            lemma_import_edges_for_unique(chunks, imports, p, entries.last().0, src, entries.last().1);
        }
    }
}

} // verus!
