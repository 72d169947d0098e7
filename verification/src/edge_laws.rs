//! Where every resolved edge comes from: a source that names the target
//! (a call list, a type relation, an import), and a distinct chunk of the
//! same project carrying that name, found by the tiered resolver.
use vstd::prelude::*;
use crate::edges::{
    Cand, callee_edges, candidates, chunk_by_id, confidence_of, file_by_path, import_edges_for,
    import_edges_spec, import_lookup, import_matched, import_relation, resolve_edges_spec,
    resolve_target_spec, same_file, type_edges_for, type_edges_spec,
};
use crate::edges::{file_contains_edges, folder_by_path, folder_contains_edges};
use crate::import_match::parent_dir;
use crate::language::{ImportView, TypeRelationView};
use crate::types::{
    CallEdgeView, CodeChunkView, EdgeConfidence, EdgeContext, EdgeRelation, FileChunkView, FolderChunkView, GraphEdgeView,
    call_edge_id_text, content_hash_of, edge_id_text,
};

verus! {

/// Some chunk with id `id` is named `name`, lives in `file`, belongs to
/// `project`, and is not the chunk `source_id`.
pub open spec fn named_chunk(
    chunks: Seq<CodeChunkView>,
    id: Seq<char>,
    name: Seq<char>,
    file: Seq<char>,
    project: Seq<char>,
    source_id: Seq<char>,
) -> bool {
    &&& id != source_id
    &&& exists|k: int|
        0 <= k < chunks.len() && (#[trigger] chunks[k]).chunk_id == id && chunks[k].identifier == name
            && chunks[k].file_path == file && chunks[k].project_name == project
}

/// Every candidate is such a chunk.
pub open spec fn cands_named(
    cs: Seq<Cand>,
    chunks: Seq<CodeChunkView>,
    name: Seq<char>,
    project: Seq<char>,
    source_id: Seq<char>,
) -> bool {
    forall|i: int| 0 <= i < cs.len() ==> named_chunk(chunks, (#[trigger] cs[i]).0, name, cs[i].1, project, source_id)
}

proof fn lemma_candidates_named(chunks: Seq<CodeChunkView>, project: Seq<char>, name: Seq<char>, source_id: Seq<char>)
    ensures
        cands_named(candidates(chunks, project, name, source_id), chunks, name, project, source_id),
    decreases chunks.len(),
{
    if chunks.len() > 0 {
        let init = chunks.drop_last();
        lemma_candidates_named(init, project, name, source_id);
        let rest = candidates(init, project, name, source_id);
        let cs = candidates(chunks, project, name, source_id);
        assert forall|i: int| 0 <= i < cs.len() implies named_chunk(chunks, (#[trigger] cs[i]).0, name, cs[i].1, project, source_id) by {
            if i < rest.len() {
                assert(cs[i] == rest[i]);
                let k = choose|k: int|
                    0 <= k < init.len() && (#[trigger] init[k]).chunk_id == rest[i].0 && init[k].identifier == name
                        && init[k].file_path == rest[i].1 && init[k].project_name == project;
                assert(chunks[k] == init[k]);
            } else {
                assert(chunks[chunks.len() - 1] == chunks.last());
            }
        }
    }
}

proof fn lemma_same_file_named(
    cs: Seq<Cand>,
    file: Seq<char>,
    chunks: Seq<CodeChunkView>,
    name: Seq<char>,
    project: Seq<char>,
    source_id: Seq<char>,
)
    requires
        cands_named(cs, chunks, name, project, source_id),
    ensures
        cands_named(same_file(cs, file), chunks, name, project, source_id),
    decreases cs.len(),
{
    if cs.len() > 0 {
        let init = cs.drop_last();
        assert forall|i: int| 0 <= i < init.len() implies named_chunk(chunks, (#[trigger] init[i]).0, name, init[i].1, project, source_id) by {
            assert(init[i] == cs[i]);
        }
        lemma_same_file_named(init, file, chunks, name, project, source_id);
        assert(named_chunk(chunks, cs[cs.len() - 1].0, name, cs[cs.len() - 1].1, project, source_id));
    }
}

proof fn lemma_import_matched_named(
    cs: Seq<Cand>,
    src_path: Seq<char>,
    source_file: Seq<char>,
    chunks: Seq<CodeChunkView>,
    name: Seq<char>,
    project: Seq<char>,
    source_id: Seq<char>,
)
    requires
        cands_named(cs, chunks, name, project, source_id),
    ensures
        cands_named(import_matched(cs, src_path, source_file), chunks, name, project, source_id),
    decreases cs.len(),
{
    if cs.len() > 0 {
        let init = cs.drop_last();
        assert forall|i: int| 0 <= i < init.len() implies named_chunk(chunks, (#[trigger] init[i]).0, name, init[i].1, project, source_id) by {
            assert(init[i] == cs[i]);
        }
        lemma_import_matched_named(init, src_path, source_file, chunks, name, project, source_id);
        assert(named_chunk(chunks, cs[cs.len() - 1].0, name, cs[cs.len() - 1].1, project, source_id));
    }
}

/// A resolved target is a chunk carrying the referenced name, in the file
/// reported, of the source's project, and not the source itself; its tier
/// is 1, 2 or 3.
pub proof fn lemma_resolved_target_named(
    chunks: Seq<CodeChunkView>,
    imports: Seq<(Seq<char>, Seq<ImportView>)>,
    source_id: Seq<char>,
    source_file: Seq<char>,
    project: Seq<char>,
    target: Seq<char>,
)
    ensures
        match resolve_target_spec(chunks, imports, source_id, source_file, project, target) {
            Some((t, f, tier)) => named_chunk(chunks, t, target, f, project, source_id) && 1 <= tier <= 3,
            None => true,
        },
{
    let ns = candidates(chunks, project, target, source_id);
    lemma_candidates_named(chunks, project, target, source_id);
    lemma_same_file_named(ns, source_file, chunks, target, project, source_id);
    let sf = same_file(ns, source_file);
    if ns.len() != 0 && sf.len() != 1 {
        let l = import_lookup(imports, source_file, target);
        if l is Some {
            lemma_import_matched_named(ns, l->0, source_file, chunks, target, project, source_id);
            let m = import_matched(ns, l->0, source_file);
            if m.len() == 1 {
                assert(named_chunk(chunks, m[0].0, target, m[0].1, project, source_id));
            } else if ns.len() == 1 {
                assert(named_chunk(chunks, ns[0].0, target, ns[0].1, project, source_id));
            }
        } else if ns.len() == 1 {
            assert(named_chunk(chunks, ns[0].0, target, ns[0].1, project, source_id));
        }
    } else if ns.len() != 0 {
        assert(named_chunk(chunks, sf[0].0, target, sf[0].1, project, source_id));
    }
}

proof fn lemma_chunk_by_id_member(chunks: Seq<CodeChunkView>, id: Seq<char>)
    ensures
        match chunk_by_id(chunks, id) {
            Some(c) => c.chunk_id == id && exists|k: int| 0 <= k < chunks.len() && #[trigger] chunks[k] == c,
            None => true,
        },
    decreases chunks.len(),
{
    if chunks.len() > 0 {
        let init = chunks.drop_last();
        lemma_chunk_by_id_member(init, id);
        if chunks.last().chunk_id == id {
            assert(chunks[chunks.len() - 1] == chunks.last());
        } else if let Some(c) = chunk_by_id(init, id) {
            let k = choose|k: int| 0 <= k < init.len() && #[trigger] init[k] == c;
            assert(chunks[k] == init[k]);
        }
    }
}

/// Where a call edge comes from: its caller is a chunk (identifier, file
/// and project as on the edge) whose call list names the callee; the callee
/// is another chunk of the same project carrying that name, in the file
/// on the edge; the tier is 1, 2 or 3; the id hashes the two chunk ids.
pub open spec fn call_edge_provenance(
    chunks: Seq<CodeChunkView>,
    calls: Seq<(Seq<char>, Seq<Seq<char>>)>,
    e: CallEdgeView,
) -> bool {
    &&& exists|k: int|
        0 <= k < chunks.len() && (#[trigger] chunks[k]).chunk_id == e.caller_chunk_id && chunks[k].identifier
            == e.caller_identifier && chunks[k].file_path == e.caller_file && chunks[k].project_name == e.project_name
    &&& exists|j: int| 0 <= j < calls.len() && (#[trigger] calls[j]).0 == e.caller_chunk_id && calls[j].1.contains(e.callee_identifier)
    &&& named_chunk(chunks, e.callee_chunk_id, e.callee_identifier, e.callee_file, e.project_name, e.caller_chunk_id)
    &&& 1 <= e.resolution_tier <= 3
    &&& e.edge_id == content_hash_of(call_edge_id_text(e.caller_chunk_id, e.callee_chunk_id))
}

proof fn lemma_callee_edges_provenance(
    chunks: Seq<CodeChunkView>,
    calls: Seq<(Seq<char>, Seq<Seq<char>>)>,
    imports: Seq<(Seq<char>, Seq<ImportView>)>,
    j: int,
    caller: CodeChunkView,
    callees: Seq<Seq<char>>,
)
    requires
        0 <= j < calls.len(),
        calls[j].0 == caller.chunk_id,
        forall|i: int| 0 <= i < callees.len() ==> calls[j].1.contains(#[trigger] callees[i]),
        exists|k: int| 0 <= k < chunks.len() && #[trigger] chunks[k] == caller,
    ensures
        forall|i: int| 0 <= i < callee_edges(chunks, imports, caller, callees).len() ==> call_edge_provenance(
            chunks,
            calls,
            #[trigger] callee_edges(chunks, imports, caller, callees)[i],
        ),
    decreases callees.len(),
{
    if callees.len() > 0 {
        let init = callees.drop_last();
        assert forall|i: int| 0 <= i < init.len() implies calls[j].1.contains(#[trigger] init[i]) by {
            assert(init[i] == callees[i]);
        }
        lemma_callee_edges_provenance(chunks, calls, imports, j, caller, init);
        let name = callees.last();
        assert(calls[j].1.contains(callees[callees.len() - 1]));
        lemma_resolved_target_named(chunks, imports, caller.chunk_id, caller.file_path, caller.project_name, name);
        let prefix = callee_edges(chunks, imports, caller, init);
        let all = callee_edges(chunks, imports, caller, callees);
        let kc = choose|k: int| 0 <= k < chunks.len() && #[trigger] chunks[k] == caller;
        assert forall|i: int| 0 <= i < all.len() implies call_edge_provenance(chunks, calls, #[trigger] all[i]) by {
            if i < prefix.len() {
                assert(all[i] == prefix[i]);
            } else {
                let e = all[i];
                assert(chunks[kc].chunk_id == e.caller_chunk_id);
                assert(calls[j].0 == e.caller_chunk_id && calls[j].1.contains(e.callee_identifier));
            }
        }
    }
}

/// Every resolved call edge has a provenance: a caller chunk whose call
/// list names the callee, a distinct callee chunk of the same project with
/// that name, a tier of 1 to 3, and an id hashing the two chunk ids. No
/// edge links projects, links a chunk to itself, or names a callee the
/// caller does not call.
pub proof fn lemma_call_edges_provenance(
    chunks: Seq<CodeChunkView>,
    calls: Seq<(Seq<char>, Seq<Seq<char>>)>,
    imports: Seq<(Seq<char>, Seq<ImportView>)>,
)
    ensures
        forall|i: int| 0 <= i < resolve_edges_spec(chunks, calls, imports).len() ==> call_edge_provenance(
            chunks,
            calls,
            #[trigger] resolve_edges_spec(chunks, calls, imports)[i],
        ),
    decreases calls.len(),
{
    if calls.len() > 0 {
        let init = calls.drop_last();
        lemma_call_edges_provenance(chunks, init, imports);
        let prefix = resolve_edges_spec(chunks, init, imports);
        let all = resolve_edges_spec(chunks, calls, imports);
        let j = calls.len() - 1;
        assert forall|i: int| 0 <= i < prefix.len() implies call_edge_provenance(chunks, calls, #[trigger] prefix[i]) by {
            assert(call_edge_provenance(chunks, init, prefix[i]));
            let jj = choose|jj: int|
                0 <= jj < init.len() && (#[trigger] init[jj]).0 == prefix[i].caller_chunk_id && init[jj].1.contains(
                    prefix[i].callee_identifier,
                );
            assert(calls[jj] == init[jj]);
        }
        lemma_chunk_by_id_member(chunks, calls[j].0);
        if let Some(caller) = chunk_by_id(chunks, calls[j].0) {
            assert forall|i: int| 0 <= i < calls[j].1.len() implies calls[j].1.contains(#[trigger] calls[j].1[i]) by {}
            lemma_callee_edges_provenance(chunks, calls, imports, j, caller, calls[j].1);
            let tail = callee_edges(chunks, imports, caller, calls[j].1);
            assert forall|i: int| 0 <= i < all.len() implies call_edge_provenance(chunks, calls, #[trigger] all[i]) by {
                if i < prefix.len() {
                    assert(all[i] == prefix[i]);
                } else {
                    assert(all[i] == tail[i - prefix.len()]);
                }
            }
        } else {
            assert forall|i: int| 0 <= i < all.len() implies call_edge_provenance(chunks, calls, #[trigger] all[i]) by {
                assert(all[i] == prefix[i]);
            }
        }
    }
}

/// Where a type-relation edge comes from: its source is a chunk (identifier,
/// file and project as on the edge) with a relation naming the target with
/// the edge's relation and context; the target is what the tiered resolver
/// finds for that name from the source, a distinct chunk of the project
/// with that name; the confidence is that of the tier, `Inferred` exactly
/// for the third; the id hashes both ids, relation and context.
pub open spec fn type_edge_provenance(
    chunks: Seq<CodeChunkView>,
    rels: Seq<(Seq<char>, Seq<TypeRelationView>)>,
    imports: Seq<(Seq<char>, Seq<ImportView>)>,
    e: GraphEdgeView,
) -> bool {
    &&& exists|k: int|
        0 <= k < chunks.len() && (#[trigger] chunks[k]).chunk_id == e.source_chunk_id && chunks[k].identifier
            == e.source_identifier && chunks[k].file_path == e.source_file && chunks[k].project_name == e.project_name
    &&& exists|j: int, r: int|
        0 <= j < rels.len() && 0 <= r < rels[j].1.len() && (#[trigger] rels[j].1[r]).target_name == e.target_identifier
            && rels[j].0 == e.source_chunk_id && rels[j].1[r].relation == e.relation && rels[j].1[r].context == e.context
    &&& named_chunk(chunks, e.target_chunk_id, e.target_identifier, e.target_file, e.project_name, e.source_chunk_id)
    &&& exists|tier: u8|
        resolve_target_spec(chunks, imports, e.source_chunk_id, e.source_file, e.project_name, e.target_identifier)
            == Some((e.target_chunk_id, e.target_file, tier)) && 1 <= tier <= 3 && #[trigger] confidence_of(tier)
            == e.confidence
    &&& e.edge_id == content_hash_of(edge_id_text(e.source_chunk_id, e.target_chunk_id, e.relation, e.context))
}

proof fn lemma_type_edges_for_provenance(
    chunks: Seq<CodeChunkView>,
    rels: Seq<(Seq<char>, Seq<TypeRelationView>)>,
    imports: Seq<(Seq<char>, Seq<ImportView>)>,
    acc: Seq<GraphEdgeView>,
    j: int,
    source: CodeChunkView,
    list: Seq<TypeRelationView>,
)
    requires
        0 <= j < rels.len(),
        rels[j].0 == source.chunk_id,
        list.len() <= rels[j].1.len(),
        forall|r: int| 0 <= r < list.len() ==> #[trigger] list[r] == rels[j].1[r],
        exists|k: int| 0 <= k < chunks.len() && #[trigger] chunks[k] == source,
        forall|i: int| 0 <= i < acc.len() ==> type_edge_provenance(chunks, rels, imports, #[trigger] acc[i]),
    ensures
        forall|i: int| 0 <= i < type_edges_for(chunks, imports, acc, source, list).len() ==> type_edge_provenance(
            chunks,
            rels,
            imports,
            #[trigger] type_edges_for(chunks, imports, acc, source, list)[i],
        ),
    decreases list.len(),
{
    if list.len() > 0 {
        let init = list.drop_last();
        assert forall|r: int| 0 <= r < init.len() implies #[trigger] init[r] == rels[j].1[r] by {
            assert(init[r] == list[r]);
        }
        lemma_type_edges_for_provenance(chunks, rels, imports, acc, j, source, init);
        let rel = list.last();
        let r = list.len() - 1;
        assert(rel == rels[j].1[r]);
        lemma_resolved_target_named(chunks, imports, source.chunk_id, source.file_path, source.project_name, rel.target_name);
        let a = type_edges_for(chunks, imports, acc, source, init);
        let all = type_edges_for(chunks, imports, acc, source, list);
        let kc = choose|k: int| 0 <= k < chunks.len() && #[trigger] chunks[k] == source;
        assert forall|i: int| 0 <= i < all.len() implies type_edge_provenance(chunks, rels, imports, #[trigger] all[i]) by {
            if i < a.len() {
                assert(all[i] == a[i]);
            } else {
                let e = all[i];
                assert(chunks[kc].chunk_id == e.source_chunk_id);
                assert(rels[j].1[r].target_name == e.target_identifier);
                if let Some((t, f, tier)) = resolve_target_spec(chunks, imports, source.chunk_id, source.file_path, source.project_name, rel.target_name) {
                    assert(confidence_of(tier) == e.confidence);
                }
            }
        }
    }
}

proof fn lemma_type_edges_prefix_provenance(
    chunks: Seq<CodeChunkView>,
    rels: Seq<(Seq<char>, Seq<TypeRelationView>)>,
    imports: Seq<(Seq<char>, Seq<ImportView>)>,
    upto: int,
)
    requires
        0 <= upto <= rels.len(),
    ensures
        forall|i: int| 0 <= i < type_edges_spec(chunks, rels.take(upto), imports).len() ==> type_edge_provenance(
            chunks,
            rels,
            imports,
            #[trigger] type_edges_spec(chunks, rels.take(upto), imports)[i],
        ),
    decreases upto,
{
    if upto > 0 {
        lemma_type_edges_prefix_provenance(chunks, rels, imports, upto - 1);
        let t = rels.take(upto);
        assert(t.drop_last() =~= rels.take(upto - 1));
        let j = upto - 1;
        assert(t.last() == rels[j]);
        let p = type_edges_spec(chunks, rels.take(upto - 1), imports);
        lemma_chunk_by_id_member(chunks, rels[j].0);
        if let Some(source) = chunk_by_id(chunks, rels[j].0) {
            lemma_type_edges_for_provenance(chunks, rels, imports, p, j, source, rels[j].1);
        }
    }
}

proof fn lemma_file_by_path_member(files: Seq<FileChunkView>, path: Seq<char>)
    ensures
        match file_by_path(files, path) {
            Some(f) => f.file_path == path && exists|k: int| 0 <= k < files.len() && #[trigger] files[k] == f,
            None => true,
        },
    decreases files.len(),
{
    if files.len() > 0 {
        let init = files.drop_last();
        lemma_file_by_path_member(init, path);
        if files.last().file_path == path {
            assert(files[files.len() - 1] == files.last());
        } else if let Some(f) = file_by_path(init, path) {
            let k = choose|k: int| 0 <= k < init.len() && #[trigger] init[k] == f;
            assert(files[k] == init[k]);
        }
    }
}

/// Where an import edge comes from: its source is the file chunk of the
/// importing file (path and project as on the edge); that file imports the
/// target name, as a re-export exactly when the edge's relation says so;
/// the target is what the tiered resolver finds for that name from the
/// file, a distinct chunk of the project with that name; the confidence is
/// that of the tier; the context is unspecified; the id hashes both ids
/// and the relation.
pub open spec fn import_edge_provenance(
    chunks: Seq<CodeChunkView>,
    files: Seq<FileChunkView>,
    imports: Seq<(Seq<char>, Seq<ImportView>)>,
    e: GraphEdgeView,
) -> bool {
    &&& exists|k: int|
        0 <= k < files.len() && (#[trigger] files[k]).chunk_id == e.source_chunk_id && files[k].file_path
            == e.source_file && files[k].project_name == e.project_name
    &&& exists|j: int, r: int|
        0 <= j < imports.len() && 0 <= r < imports[j].1.len() && (#[trigger] imports[j].1[r]).imported_name
            == e.target_identifier && imports[j].0 == e.source_file && import_relation(imports[j].1[r]) == e.relation
    &&& named_chunk(chunks, e.target_chunk_id, e.target_identifier, e.target_file, e.project_name, e.source_chunk_id)
    &&& exists|tier: u8|
        resolve_target_spec(chunks, imports, e.source_chunk_id, e.source_file, e.project_name, e.target_identifier)
            == Some((e.target_chunk_id, e.target_file, tier)) && 1 <= tier <= 3 && #[trigger] confidence_of(tier)
            == e.confidence
    &&& e.context == EdgeContext::Unspecified
    &&& e.edge_id == content_hash_of(edge_id_text(e.source_chunk_id, e.target_chunk_id, e.relation, e.context))
}

proof fn lemma_import_edges_for_provenance(
    chunks: Seq<CodeChunkView>,
    files: Seq<FileChunkView>,
    imports: Seq<(Seq<char>, Seq<ImportView>)>,
    acc: Seq<GraphEdgeView>,
    j: int,
    src: FileChunkView,
    list: Seq<ImportView>,
)
    requires
        0 <= j < imports.len(),
        src.file_path == imports[j].0,
        list.len() <= imports[j].1.len(),
        forall|r: int| 0 <= r < list.len() ==> #[trigger] list[r] == imports[j].1[r],
        exists|k: int| 0 <= k < files.len() && #[trigger] files[k] == src,
        forall|i: int| 0 <= i < acc.len() ==> import_edge_provenance(chunks, files, imports, #[trigger] acc[i]),
    ensures
        forall|i: int| 0 <= i < import_edges_for(chunks, imports, acc, imports[j].0, src, list).len()
            ==> import_edge_provenance(
            chunks,
            files,
            imports,
            #[trigger] import_edges_for(chunks, imports, acc, imports[j].0, src, list)[i],
        ),
    decreases list.len(),
{
    let file = imports[j].0;
    if list.len() > 0 {
        let init = list.drop_last();
        assert forall|r: int| 0 <= r < init.len() implies #[trigger] init[r] == imports[j].1[r] by {
            assert(init[r] == list[r]);
        }
        lemma_import_edges_for_provenance(chunks, files, imports, acc, j, src, init);
        let imp = list.last();
        let r = list.len() - 1;
        assert(imp == imports[j].1[r]);
        lemma_resolved_target_named(chunks, imports, src.chunk_id, file, src.project_name, imp.imported_name);
        let a = import_edges_for(chunks, imports, acc, file, src, init);
        let all = import_edges_for(chunks, imports, acc, file, src, list);
        let kf = choose|k: int| 0 <= k < files.len() && #[trigger] files[k] == src;
        assert forall|i: int| 0 <= i < all.len() implies import_edge_provenance(chunks, files, imports, #[trigger] all[i]) by {
            if i < a.len() {
                assert(all[i] == a[i]);
            } else {
                let e = all[i];
                assert(files[kf].chunk_id == e.source_chunk_id);
                assert(imports[j].1[r].imported_name == e.target_identifier);
                if let Some((t, f, tier)) = resolve_target_spec(chunks, imports, src.chunk_id, file, src.project_name, imp.imported_name) {
                    assert(confidence_of(tier) == e.confidence);
                }
            }
        }
    }
}

proof fn lemma_import_edges_prefix_provenance(
    chunks: Seq<CodeChunkView>,
    files: Seq<FileChunkView>,
    imports: Seq<(Seq<char>, Seq<ImportView>)>,
    upto: int,
)
    requires
        0 <= upto <= imports.len(),
    ensures
        forall|i: int| 0 <= i < import_edges_spec(chunks, files, imports, imports.take(upto)).len()
            ==> import_edge_provenance(
            chunks,
            files,
            imports,
            #[trigger] import_edges_spec(chunks, files, imports, imports.take(upto))[i],
        ),
    decreases upto,
{
    if upto > 0 {
        lemma_import_edges_prefix_provenance(chunks, files, imports, upto - 1);
        let t = imports.take(upto);
        assert(t.drop_last() =~= imports.take(upto - 1));
        let j = upto - 1;
        assert(t.last() == imports[j]);
        let p = import_edges_spec(chunks, files, imports, imports.take(upto - 1));
        lemma_file_by_path_member(files, imports[j].0);
        if let Some(src) = file_by_path(files, imports[j].0) {
            lemma_import_edges_for_provenance(chunks, files, imports, p, j, src, imports[j].1);
        }
    }
}

/// Every type-relation edge has a provenance: a source chunk whose
/// relations name the target with the edge's relation and context, the
/// target the tiered resolver picks (a distinct chunk of the same project
/// with that name), a confidence matching the tier, and an id hashing both
/// ids, relation and context.
pub proof fn lemma_type_edges_provenance(
    chunks: Seq<CodeChunkView>,
    rels: Seq<(Seq<char>, Seq<TypeRelationView>)>,
    imports: Seq<(Seq<char>, Seq<ImportView>)>,
)
    ensures
        forall|i: int| 0 <= i < type_edges_spec(chunks, rels, imports).len() ==> type_edge_provenance(
            chunks,
            rels,
            imports,
            #[trigger] type_edges_spec(chunks, rels, imports)[i],
        ),
{
    lemma_type_edges_prefix_provenance(chunks, rels, imports, rels.len() as int);
    assert(rels.take(rels.len() as int) =~= rels);
}

/// Every import edge has a provenance: the importing file's file chunk as
/// source, an import of the target name in that file (a re-export exactly
/// for a `ReExports` edge), the target the tiered resolver picks (a
/// distinct chunk of the same project with that name), a confidence
/// matching the tier, an unspecified context, and an id hashing both ids
/// and the relation.
pub proof fn lemma_import_edges_provenance(
    chunks: Seq<CodeChunkView>,
    files: Seq<FileChunkView>,
    imports: Seq<(Seq<char>, Seq<ImportView>)>,
)
    ensures
        forall|i: int| 0 <= i < import_edges_spec(chunks, files, imports, imports).len() ==> import_edge_provenance(
            chunks,
            files,
            imports,
            #[trigger] import_edges_spec(chunks, files, imports, imports)[i],
        ),
{
    lemma_import_edges_prefix_provenance(chunks, files, imports, imports.len() as int);
    assert(imports.take(imports.len() as int) =~= imports);
}

proof fn lemma_folder_by_path_member(folders: Seq<FolderChunkView>, path: Seq<char>)
    ensures
        match folder_by_path(folders, path) {
            Some(f) => f.folder_path == path && exists|k: int| 0 <= k < folders.len() && #[trigger] folders[k] == f,
            None => true,
        },
    decreases folders.len(),
{
    if folders.len() > 0 {
        let init = folders.drop_last();
        lemma_folder_by_path_member(init, path);
        if folders.last().folder_path == path {
            assert(folders[folders.len() - 1] == folders.last());
        } else if let Some(f) = folder_by_path(init, path) {
            let k = choose|k: int| 0 <= k < init.len() && #[trigger] init[k] == f;
            assert(folders[k] == init[k]);
        }
    }
}

/// A containment edge: relation `Contains`, no context, extracted.
pub open spec fn plain_contains(e: GraphEdgeView) -> bool {
    e.relation == EdgeRelation::Contains && e.context == EdgeContext::Unspecified && e.confidence
        == EdgeConfidence::Extracted
}

/// A file edge leads from the file chunk of a code chunk's path to that
/// code chunk, in the code chunk's project.
pub open spec fn file_edge_from(chunks: Seq<CodeChunkView>, files: Seq<FileChunkView>, e: GraphEdgeView) -> bool {
    exists|k: int, f: int|
        0 <= k < chunks.len() && 0 <= f < files.len() && #[trigger] chunks[k].chunk_id == e.target_chunk_id
            && #[trigger] files[f].chunk_id == e.source_chunk_id && files[f].file_path == chunks[k].file_path
            && e.project_name == chunks[k].project_name && e.target_identifier == chunks[k].identifier
}

/// A folder edge leads from the folder chunk of a file's parent directory
/// to that file's chunk, in the file's project.
pub open spec fn folder_edge_from(files: Seq<FileChunkView>, folders: Seq<FolderChunkView>, e: GraphEdgeView) -> bool {
    exists|f: int, g: int|
        0 <= f < files.len() && 0 <= g < folders.len() && #[trigger] files[f].chunk_id == e.target_chunk_id
            && #[trigger] folders[g].chunk_id == e.source_chunk_id && parent_dir(files[f].file_path) == Some(
            folders[g].folder_path,
        ) && e.project_name == files[f].project_name
}

proof fn lemma_file_contains_law(chunks: Seq<CodeChunkView>, files: Seq<FileChunkView>)
    ensures
        forall|i: int| 0 <= i < file_contains_edges(chunks, files).len() ==> plain_contains(
            #[trigger] file_contains_edges(chunks, files)[i],
        ) && file_edge_from(chunks, files, file_contains_edges(chunks, files)[i]),
    decreases chunks.len(),
{
    if chunks.len() > 0 {
        let init = chunks.drop_last();
        lemma_file_contains_law(init, files);
        let p = file_contains_edges(init, files);
        let all = file_contains_edges(chunks, files);
        let c = chunks.last();
        lemma_file_by_path_member(files, c.file_path);
        assert forall|i: int| 0 <= i < all.len() implies plain_contains(#[trigger] all[i]) && file_edge_from(chunks, files, all[i]) by {
            if i < p.len() {
                assert(all[i] == p[i]);
                let (k, f) = choose|k: int, f: int|
                    0 <= k < init.len() && 0 <= f < files.len() && #[trigger] init[k].chunk_id == p[i].target_chunk_id
                        && #[trigger] files[f].chunk_id == p[i].source_chunk_id && files[f].file_path == init[k].file_path
                        && p[i].project_name == init[k].project_name && p[i].target_identifier == init[k].identifier;
                assert(chunks[k] == init[k]);
            } else {
                let fc = file_by_path(files, c.file_path)->0;
                let f = choose|f: int| 0 <= f < files.len() && #[trigger] files[f] == fc;
                assert(chunks[chunks.len() - 1] == c);
                assert(files[f].chunk_id == all[i].source_chunk_id);
            }
        }
    }
}

proof fn lemma_folder_contains_law(files: Seq<FileChunkView>, folders: Seq<FolderChunkView>)
    ensures
        forall|i: int| 0 <= i < folder_contains_edges(files, folders).len() ==> plain_contains(
            #[trigger] folder_contains_edges(files, folders)[i],
        ) && folder_edge_from(files, folders, folder_contains_edges(files, folders)[i]),
    decreases files.len(),
{
    if files.len() > 0 {
        let init = files.drop_last();
        lemma_folder_contains_law(init, folders);
        let p = folder_contains_edges(init, folders);
        let all = folder_contains_edges(files, folders);
        let fc = files.last();
        assert forall|i: int| 0 <= i < all.len() implies plain_contains(#[trigger] all[i]) && folder_edge_from(files, folders, all[i]) by {
            if i < p.len() {
                assert(all[i] == p[i]);
                let (f, g) = choose|f: int, g: int|
                    0 <= f < init.len() && 0 <= g < folders.len() && #[trigger] init[f].chunk_id == p[i].target_chunk_id
                        && #[trigger] folders[g].chunk_id == p[i].source_chunk_id && parent_dir(init[f].file_path) == Some(
                        folders[g].folder_path,
                    ) && p[i].project_name == init[f].project_name;
                assert(files[f] == init[f]);
            } else {
                let parent = parent_dir(fc.file_path)->0;
                lemma_folder_by_path_member(folders, parent);
                let folder = folder_by_path(folders, parent)->0;
                let g = choose|g: int| 0 <= g < folders.len() && #[trigger] folders[g] == folder;
                assert(files[files.len() - 1] == fc);
                assert(folders[g].chunk_id == all[i].source_chunk_id);
            }
        }
    }
}

/// Containment edges are all `Contains`, without context and extracted:
/// first, one from the file chunk of each code chunk's path to that code
/// chunk; then one from the folder chunk of each file's parent directory
/// to that file's chunk; each in the contained chunk's project.
pub proof fn lemma_contains_edges_law(chunks: Seq<CodeChunkView>, files: Seq<FileChunkView>, folders: Seq<FolderChunkView>)
    ensures
        ({
            let fe = file_contains_edges(chunks, files);
            let de = folder_contains_edges(files, folders);
            &&& forall|i: int| 0 <= i < fe.len() ==> plain_contains(#[trigger] fe[i]) && file_edge_from(chunks, files, fe[i])
            &&& forall|i: int| 0 <= i < de.len() ==> plain_contains(#[trigger] de[i]) && folder_edge_from(files, folders, de[i])
        }),
{
    lemma_file_contains_law(chunks, files);
    lemma_folder_contains_law(files, folders);
}

/// How many chunks other than `source_id`, named `name` and of `project`,
/// live in `file`.
pub open spec fn rivals_in_file(
    chunks: Seq<CodeChunkView>,
    project: Seq<char>,
    name: Seq<char>,
    source_id: Seq<char>,
    file: Seq<char>,
) -> nat
    decreases chunks.len(),
{
    if chunks.len() == 0 {
        0
    } else {
        let c = chunks.last();
        rivals_in_file(chunks.drop_last(), project, name, source_id, file) + if c.project_name == project
            && c.identifier == name && c.chunk_id != source_id && c.file_path == file {
            1nat
        } else {
            0nat
        }
    }
}

proof fn lemma_same_file_len(cs: Seq<Cand>, file: Seq<char>)
    ensures
        same_file(cs, file).len() <= cs.len(),
        forall|i: int| 0 <= i < same_file(cs, file).len() ==> (#[trigger] same_file(cs, file)[i]).1 == file,
    decreases cs.len(),
{
    if cs.len() > 0 {
        lemma_same_file_len(cs.drop_last(), file);
        let p = same_file(cs.drop_last(), file);
        let all = same_file(cs, file);
        assert forall|i: int| 0 <= i < all.len() implies (#[trigger] all[i]).1 == file by {
            if i < p.len() {
                assert(all[i] == p[i]);
            }
        }
    }
}

proof fn lemma_same_file_counts_rivals(chunks: Seq<CodeChunkView>, project: Seq<char>, name: Seq<char>, source_id: Seq<char>, file: Seq<char>)
    ensures
        same_file(candidates(chunks, project, name, source_id), file).len() == rivals_in_file(chunks, project, name, source_id, file),
    decreases chunks.len(),
{
    if chunks.len() > 0 {
        let init = chunks.drop_last();
        lemma_same_file_counts_rivals(init, project, name, source_id, file);
        let cs = candidates(init, project, name, source_id);
        let c = chunks.last();
        if c.project_name == project && c.identifier == name && c.chunk_id != source_id {
            let x = (c.chunk_id, c.file_path);
            assert(cs.push(x).drop_last() =~= cs);
            assert(cs.push(x).last() == x);
        }
    }
}

/// A same-file (tier 1) resolution happens only when exactly one other
/// chunk of the project with that name lives in the source file; the
/// target is that chunk, in that file. With two or more there and no
/// import of the name in the source file, nothing resolves: the name is
/// ambiguous and no edge is made.
pub proof fn lemma_same_file_tier_needs_one_rival(
    chunks: Seq<CodeChunkView>,
    imports: Seq<(Seq<char>, Seq<ImportView>)>,
    source_id: Seq<char>,
    source_file: Seq<char>,
    project: Seq<char>,
    target: Seq<char>,
)
    ensures
        match resolve_target_spec(chunks, imports, source_id, source_file, project, target) {
            Some((t, f, tier)) => tier == 1 ==> rivals_in_file(chunks, project, target, source_id, source_file) == 1
                && f == source_file && named_chunk(chunks, t, target, f, project, source_id),
            None => true,
        },
        rivals_in_file(chunks, project, target, source_id, source_file) >= 2 && import_lookup(imports, source_file, target)
            is None ==> resolve_target_spec(chunks, imports, source_id, source_file, project, target) is None,
{
    let ns = candidates(chunks, project, target, source_id);
    lemma_same_file_counts_rivals(chunks, project, target, source_id, source_file);
    lemma_same_file_len(ns, source_file);
    lemma_resolved_target_named(chunks, imports, source_id, source_file, project, target);
    let sf = same_file(ns, source_file);
    if let Some((t, f, tier)) = resolve_target_spec(chunks, imports, source_id, source_file, project, target) {
        if tier == 1 {
            assert(sf.len() == 1);
            assert(sf[0].1 == source_file);
        }
    }
}

/// How many chunks other than `source_id`, named `name`, belong to `project`.
pub open spec fn rivals_in_project(chunks: Seq<CodeChunkView>, project: Seq<char>, name: Seq<char>, source_id: Seq<char>) -> nat
    decreases chunks.len(),
{
    if chunks.len() == 0 {
        0
    } else {
        let c = chunks.last();
        rivals_in_project(chunks.drop_last(), project, name, source_id) + if c.project_name == project && c.identifier
            == name && c.chunk_id != source_id {
            1nat
        } else {
            0nat
        }
    }
}

proof fn lemma_candidates_count_rivals(chunks: Seq<CodeChunkView>, project: Seq<char>, name: Seq<char>, source_id: Seq<char>)
    ensures
        candidates(chunks, project, name, source_id).len() == rivals_in_project(chunks, project, name, source_id),
    decreases chunks.len(),
{
    if chunks.len() > 0 {
        lemma_candidates_count_rivals(chunks.drop_last(), project, name, source_id);
    }
}

proof fn lemma_import_matched_len(cs: Seq<Cand>, src_path: Seq<char>, source_file: Seq<char>)
    ensures
        import_matched(cs, src_path, source_file).len() <= cs.len(),
    decreases cs.len(),
{
    if cs.len() > 0 {
        lemma_import_matched_len(cs.drop_last(), src_path, source_file);
    }
}

/// The tier of a resolution, 0 for none.
pub open spec fn tier_of(r: Option<(Seq<char>, Seq<char>, u8)>) -> u8 {
    match r {
        Some((_, _, t)) => t,
        None => 0,
    }
}

/// The three tiers, counted over the chunks: a name nobody else in the
/// project carries resolves to nothing; a name exactly one other chunk of
/// the project carries always resolves; exactly one carrier in the source
/// file always resolves at tier 1; tier 2 needs an import of the name in
/// the source file and no single same-file carrier; tier 3 needs a single
/// carrier in the whole project and none singled out in the file.
pub proof fn lemma_resolution_tiers(
    chunks: Seq<CodeChunkView>,
    imports: Seq<(Seq<char>, Seq<ImportView>)>,
    source_id: Seq<char>,
    source_file: Seq<char>,
    project: Seq<char>,
    target: Seq<char>,
)
    ensures
        ({
            let r = resolve_target_spec(chunks, imports, source_id, source_file, project, target);
            let in_project = rivals_in_project(chunks, project, target, source_id);
            let in_file = rivals_in_file(chunks, project, target, source_id, source_file);
            &&& in_project == 0 ==> r is None
            &&& in_project == 1 ==> r is Some
            &&& in_file == 1 ==> r is Some && tier_of(r) == 1u8
            &&& (r is Some && tier_of(r) == 2u8) ==> in_file != 1 && import_lookup(imports, source_file, target) is Some
            &&& (r is Some && tier_of(r) == 3u8) ==> in_file != 1 && in_project == 1
        }),
{
    let ns = candidates(chunks, project, target, source_id);
    lemma_candidates_count_rivals(chunks, project, target, source_id);
    lemma_same_file_counts_rivals(chunks, project, target, source_id, source_file);
    lemma_same_file_len(ns, source_file);
    let l = import_lookup(imports, source_file, target);
    if l is Some {
        lemma_import_matched_len(ns, l->0, source_file);
    }
}

} // verus!
