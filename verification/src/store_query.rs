//! The filters the vector store queries with, and what it makes of the
//! rows it reads back: SQL string literals with quotes doubled, batched
//! `IN` lists, the per-file index of a project and its project list.
use vstd::prelude::*;
use crate::sorted::{insert_sorted, sorted_strict};
use crate::strings::{
    chars_of, extend, extend_str, join, join_vec, lemma_join_split, lemma_split_join, lemma_split_on_nonempty,
    lemma_split_pieces_avoid, replace, replace_vec, split_on, string_of, strings_view,
};

verus! {

/// `s` as a SQL string literal: in single quotes, each quote doubled.
pub open spec fn quoted(s: Seq<char>) -> Seq<char> {
    seq!['\''] + replace(s, seq!['\''], seq!['\'', '\'']) + seq!['\'']
}

/// The text of a SQL string literal: quotes stripped, doubled quotes undone.
pub open spec fn unquoted(q: Seq<char>) -> Seq<char> {
    replace(q.subrange(1, q.len() - 1), seq!['\'', '\''], seq!['\''])
}

/// Quoting is undone by reading the literal back: whatever a value holds,
/// including quotes, a filter compares against exactly that value.
pub proof fn lemma_quote_round_trip(s: Seq<char>)
    ensures
        unquoted(quoted(s)) == s,
{
    let q = seq!['\''];
    let qq = seq!['\'', '\''];
    let parts = split_on(s, q);
    let inner = replace(s, q, qq);
    assert(quoted(s).subrange(1, quoted(s).len() - 1) =~= inner);
    assert forall|j: int| 0 <= j < parts.len() implies !(#[trigger] parts[j]).contains(qq[0]) by {
        crate::strings::lemma_split_char_pieces(s, '\'');
    }
    lemma_split_on_nonempty(s, q);
    lemma_split_join(parts, qq);
    lemma_join_split(s, q);
}

fn quote_into(out: &mut Vec<char>, s: &str)
    ensures
        final(out)@ == old(out)@ + quoted(s@),
{
    let mut q: Vec<char> = Vec::new();
    q.push('\'');
    let mut qq: Vec<char> = Vec::new();
    qq.push('\'');
    qq.push('\'');
    assert(q@ == seq!['\''] && qq@ == seq!['\'', '\'']);
    let ghost start = out@;
    out.push('\'');
    extend(out, &replace_vec(&chars_of(s), &q, &qq));
    out.push('\'');
    assert(out@ =~= start + quoted(s@));
}

/// `column = 'value'`, the value quoted.
pub open spec fn eq_filter_spec(column: Seq<char>, value: Seq<char>) -> Seq<char> {
    column + " = "@ + quoted(value)
}

/// The filter selecting rows whose `column` equals `value`.
pub fn eq_filter(column: &str, value: &str) -> (r: String)
    ensures
        r@ == eq_filter_spec(column@, value@),
{
    let mut out = chars_of(column);
    extend_str(&mut out, " = ");
    quote_into(&mut out, value);
    string_of(&out)
}

/// The filter selecting the call edges whose `column` (the caller or callee
/// chunk id) is `chunk_id`, within `project` when one is given.
pub open spec fn edge_filter_spec(column: Seq<char>, chunk_id: Seq<char>, project: Option<Seq<char>>) -> Seq<char> {
    eq_filter_spec(column, chunk_id) + match project {
        Some(p) => " AND "@ + eq_filter_spec("project_name"@, p),
        None => seq![],
    }
}

/// The call-edge filter for one end of an edge, optionally within a project.
pub fn edge_filter(column: &str, chunk_id: &str, project: Option<&str>) -> (r: String)
    ensures
        r@ == edge_filter_spec(column@, chunk_id@, crate::text::opt_str(project)),
{
    let mut out = chars_of(column);
    extend_str(&mut out, " = ");
    quote_into(&mut out, chunk_id);
    match project {
        Some(p) => {
            extend_str(&mut out, " AND project_name = ");
            quote_into(&mut out, p);
            proof {
                reveal_strlit(" AND project_name = ");
                reveal_strlit(" AND ");
                reveal_strlit("project_name");
                reveal_strlit(" = ");
                assert(" AND project_name = "@ =~= " AND "@ + "project_name"@ + " = "@);
            }
        },
        None => {},
    }
    let r = string_of(&out);
    assert(r@ =~= edge_filter_spec(column@, chunk_id@, crate::text::opt_str(project)));
    r
}

/// The filter selecting a chunk by id, the id written as it is (chunk ids
/// are hex digests or UUIDs).
pub fn chunk_id_filter(chunk_id: &str) -> (r: String)
    ensures
        r@ == "chunk_id = '"@ + chunk_id@ + "'"@,
{
    let mut out = chars_of("chunk_id = '");
    extend_str(&mut out, chunk_id);
    extend_str(&mut out, "'");
    string_of(&out)
}

/// Ids per `IN` list: longer predicates are split.
pub const ID_BATCH: usize = 100;

/// The `chunk_id IN (…)` filter of one batch of ids, each quoted.
pub open spec fn in_filter_spec(ids: Seq<Seq<char>>) -> Seq<char> {
    "chunk_id IN ("@ + join(ids.map_values(|id: Seq<char>| quoted(id)), ", "@) + ")"@
}

/// The ids `k * ID_BATCH ..` of the next batch.
pub open spec fn id_batch(ids: Seq<Seq<char>>, k: int) -> Seq<Seq<char>> {
    ids.subrange(k * ID_BATCH, if (k + 1) * ID_BATCH < ids.len() { (k + 1) * ID_BATCH } else { ids.len() as int })
}

/// The number of batches `ids` take.
pub open spec fn batch_count(n: nat) -> nat {
    (n + ID_BATCH - 1) as nat / ID_BATCH as nat
}

fn in_filter(ids: &[String], from: usize, to: usize) -> (r: String)
    requires
        from <= to <= ids.len(),
    ensures
        r@ == in_filter_spec(strings_view(ids@).subrange(from as int, to as int)),
{
    let ghost sub = strings_view(ids@).subrange(from as int, to as int);
    let mut parts: Vec<Vec<char>> = Vec::new();
    let mut i = from;
    while i < to
        invariant
            from <= i <= to <= ids.len(),
            sub == strings_view(ids@).subrange(from as int, to as int),
            parts@.map_values(|w: Vec<char>| w@) == sub.take(i - from).map_values(|id: Seq<char>| quoted(id)),
        decreases to - i,
    {
        let mut q: Vec<char> = Vec::new();
        quote_into(&mut q, ids[i].as_str());
        assert(q@ =~= quoted(sub[i - from]));
        let ghost before = parts@.map_values(|w: Vec<char>| w@);
        parts.push(q);
        assert(parts@.map_values(|w: Vec<char>| w@) =~= before.push(quoted(sub[i - from])));
        assert(sub.take(i + 1 - from) =~= sub.take(i - from).push(sub[i - from]));
        assert(parts@.map_values(|w: Vec<char>| w@) =~= sub.take(i + 1 - from).map_values(|id: Seq<char>| quoted(id)));
        i += 1;
    }
    assert(sub.take(to - from) =~= sub);
    let mut out = chars_of("chunk_id IN (");
    extend(&mut out, &join_vec(&parts, &chars_of(", ")));
    extend_str(&mut out, ")");
    string_of(&out)
}

/// The `IN` filters deleting or fetching these chunks: one per batch of
/// `ID_BATCH` ids, in order (none for no ids).
pub fn id_in_filters(ids: &[String]) -> (r: Vec<String>)
    ensures
        r@.len() == batch_count(ids@.len()),
        forall|k: int| 0 <= k < r@.len() ==> (#[trigger] r@[k])@ == in_filter_spec(id_batch(strings_view(ids@), k)),
{
    let mut r: Vec<String> = Vec::new();
    let mut from: usize = 0;
    while from < ids.len()
        invariant
            from <= ids.len(),
            from == r@.len() * ID_BATCH || from == ids.len(),
            r@.len() * ID_BATCH < ids.len() + ID_BATCH,
            from < ids.len() ==> from == r@.len() * ID_BATCH,
            from == ids.len() ==> r@.len() == batch_count(ids@.len()),
            forall|k: int| 0 <= k < r@.len() ==> (#[trigger] r@[k])@ == in_filter_spec(id_batch(strings_view(ids@), k)),
        decreases ids.len() - from,
    {
        let to = if ids.len() - from > ID_BATCH { from + ID_BATCH } else { ids.len() };
        let ghost k = r@.len() as int;
        assert(strings_view(ids@).subrange(from as int, to as int) == id_batch(strings_view(ids@), k)) by (nonlinear_arith)
            requires
                from == k * ID_BATCH,
                to == (if ids.len() - from > ID_BATCH { from + ID_BATCH } else { ids.len() as int }),
        {
        }
        r.push(in_filter(ids, from, to));
        proof {
            if to == ids.len() {
                assert(r@.len() == batch_count(ids@.len())) by (nonlinear_arith)
                    requires
                        r@.len() == k + 1,
                        from == k * ID_BATCH,
                        ids.len() - from <= ID_BATCH,
                        from < ids.len(),
                {
                }
            }
        }
        from = to;
    }
    if ids.len() == 0 {
        assert(batch_count(0) == 0);
    }
    r
}

// ---------------------------------------------------------------------------
// Reading rows back
// ---------------------------------------------------------------------------

/// Position of the entry for `path`.
pub open spec fn entry_of(idx: Seq<(Seq<char>, Seq<char>, Seq<Seq<char>>)>, path: Seq<char>) -> Option<int>
    decreases idx.len(),
{
    if idx.len() == 0 {
        None
    } else if idx.last().0 == path {
        Some(idx.len() - 1)
    } else {
        entry_of(idx.drop_last(), path)
    }
}

/// The per-file index of `(path, chunk id, content hash)` rows: for each
/// path, in order of first appearance, the hash of its first row and the
/// ids of all its rows in order.
pub open spec fn file_index(rows: Seq<(Seq<char>, Seq<char>, Seq<char>)>) -> Seq<(Seq<char>, Seq<char>, Seq<Seq<char>>)>
    decreases rows.len(),
{
    if rows.len() == 0 {
        seq![]
    } else {
        let idx = file_index(rows.drop_last());
        let (path, id, hash) = rows.last();
        match entry_of(idx, path) {
            Some(k) => idx.update(k, (path, idx[k].1, idx[k].2.push(id))),
            None => idx.push((path, hash, seq![id])),
        }
    }
}

proof fn lemma_entry_of(idx: Seq<(Seq<char>, Seq<char>, Seq<Seq<char>>)>, path: Seq<char>)
    ensures
        entry_of(idx, path) matches Some(k) ==> 0 <= k < idx.len() && idx[k].0 == path,
    decreases idx.len(),
{
    if idx.len() > 0 && idx.last().0 != path {
        lemma_entry_of(idx.drop_last(), path);
    }
}

/// No path has two entries in `idx`.
pub open spec fn distinct_paths(idx: Seq<(Seq<char>, Seq<char>, Seq<Seq<char>>)>) -> bool {
    forall|i: int, j: int| 0 <= i < j < idx.len() ==> (#[trigger] idx[i]).0 != (#[trigger] idx[j]).0
}

proof fn lemma_entry_of_none(idx: Seq<(Seq<char>, Seq<char>, Seq<Seq<char>>)>, path: Seq<char>)
    ensures
        entry_of(idx, path) is None ==> forall|k: int| 0 <= k < idx.len() ==> (#[trigger] idx[k]).0 != path,
    decreases idx.len(),
{
    if idx.len() > 0 {
        lemma_entry_of_none(idx.drop_last(), path);
        assert forall|k: int| 0 <= k < idx.len() - 1 implies #[trigger] idx[k] == idx.drop_last()[k] by {}
    }
}

proof fn lemma_entry_of_same_paths(
    a: Seq<(Seq<char>, Seq<char>, Seq<Seq<char>>)>,
    b: Seq<(Seq<char>, Seq<char>, Seq<Seq<char>>)>,
    path: Seq<char>,
)
    requires
        a.len() == b.len(),
        forall|k: int| 0 <= k < a.len() ==> (#[trigger] a[k]).0 == b[k].0,
    ensures
        entry_of(a, path) == entry_of(b, path),
    decreases a.len(),
{
    if a.len() > 0 {
        assert forall|k: int| 0 <= k < a.len() - 1 implies (#[trigger] a.drop_last()[k]).0 == b.drop_last()[k].0 by {
            assert(a.drop_last()[k] == a[k] && b.drop_last()[k] == b[k]);
        }
        lemma_entry_of_same_paths(a.drop_last(), b.drop_last(), path);
    }
}

/// The per-file index has one entry per path, and every row's chunk id is
/// listed under the entry of that row's path: grouping loses no chunk, so
/// a changed file's chunks can all be replaced.
pub proof fn lemma_file_index_complete(rows: Seq<(Seq<char>, Seq<char>, Seq<char>)>)
    ensures
        distinct_paths(file_index(rows)),
        forall|r: int| 0 <= r < rows.len() ==> {
            let idx = file_index(rows);
            &&& entry_of(idx, (#[trigger] rows[r]).0) is Some
            &&& idx[entry_of(idx, rows[r].0)->0].2.contains(rows[r].1)
        },
    decreases rows.len(),
{
    if rows.len() > 0 {
        let prev = rows.drop_last();
        lemma_file_index_complete(prev);
        let before = file_index(prev);
        let idx = file_index(rows);
        let (path, id, hash) = rows.last();
        lemma_entry_of(before, path);
        lemma_entry_of_none(before, path);
        match entry_of(before, path) {
            Some(k) => {
                assert(idx == before.update(k, (path, before[k].1, before[k].2.push(id))));
                assert forall|q: Seq<char>| #[trigger] entry_of(idx, q) == entry_of(before, q) by {
                    lemma_entry_of_same_paths(idx, before, q);
                }
                assert forall|r: int| 0 <= r < rows.len() implies {
                    &&& entry_of(idx, (#[trigger] rows[r]).0) is Some
                    &&& idx[entry_of(idx, rows[r].0)->0].2.contains(rows[r].1)
                } by {
                    if r < rows.len() - 1 {
                        assert(rows[r] == prev[r]);
                        let kr = entry_of(before, prev[r].0)->0;
                        lemma_entry_of(before, prev[r].0);
                        if kr == k {
                            let j = choose|j: int| 0 <= j < before[k].2.len() && before[k].2[j] == prev[r].1;
                            assert(idx[k].2[j] == prev[r].1);
                        }
                    } else {
                        assert(idx[k].2[idx[k].2.len() - 1] == id);
                    }
                }
            },
            None => {
                assert(idx == before.push((path, hash, seq![id])));
                assert(idx.drop_last() =~= before);
                assert forall|r: int| 0 <= r < rows.len() implies {
                    &&& entry_of(idx, (#[trigger] rows[r]).0) is Some
                    &&& idx[entry_of(idx, rows[r].0)->0].2.contains(rows[r].1)
                } by {
                    if r < rows.len() - 1 {
                        assert(rows[r] == prev[r]);
                        lemma_entry_of(before, prev[r].0);
                        let kr = entry_of(before, prev[r].0)->0;
                        assert(before[kr].0 != path);
                        assert(entry_of(idx, prev[r].0) == entry_of(before, prev[r].0));
                        assert(idx[kr] == before[kr]);
                    } else {
                        assert(entry_of(idx, path) == Some(before.len() as int));
                        assert(idx[before.len() as int].2[0] == id);
                    }
                }
            },
        }
    }
}

pub open spec fn rows_view(rows: Seq<(String, String, String)>) -> Seq<(Seq<char>, Seq<char>, Seq<char>)> {
    rows.map_values(|r: (String, String, String)| (r.0@, r.1@, r.2@))
}

pub open spec fn index_view(idx: Seq<(String, String, Vec<String>)>) -> Seq<(Seq<char>, Seq<char>, Seq<Seq<char>>)> {
    idx.map_values(|e: (String, String, Vec<String>)| (e.0@, e.1@, strings_view(e.2@)))
}

fn find_entry(idx: &Vec<(String, String, Vec<String>)>, path: &String) -> (r: Option<usize>)
    ensures
        match r {
            Some(k) => entry_of(index_view(idx@), path@) == Some(k as int) && k < idx.len(),
            None => entry_of(index_view(idx@), path@) is None,
        },
{
    let ghost iv = index_view(idx@);
    let mut k = idx.len();
    assert(iv.take(k as int) =~= iv);
    while k > 0
        invariant
            k <= idx.len(),
            iv == index_view(idx@),
            entry_of(iv, path@) == entry_of(iv.take(k as int), path@),
        decreases k,
    {
        assert(iv.take(k as int).drop_last() =~= iv.take(k - 1));
        assert(iv.take(k as int).last() == iv[k - 1]);
        if idx[k - 1].0 == *path {
            return Some(k - 1);
        }
        k -= 1;
    }
    None
}

/// Group a project's `(path, chunk id, content hash)` rows into its
/// per-file index: the incremental ingest compares each file's stored hash
/// against the file on disk and replaces all of its chunks on a change.
pub fn file_index_from_rows(rows: &[(String, String, String)]) -> (r: Vec<(String, String, Vec<String>)>)
    ensures
        index_view(r@) == file_index(rows_view(rows@)),
{
    let ghost rv = rows_view(rows@);
    let mut idx: Vec<(String, String, Vec<String>)> = Vec::new();
    let mut i: usize = 0;
    while i < rows.len()
        invariant
            i <= rows.len(),
            rv == rows_view(rows@),
            index_view(idx@) == file_index(rv.take(i as int)),
        decreases rows.len() - i,
    {
        assert(rv.take(i + 1).drop_last() =~= rv.take(i as int));
        assert(rv.take(i + 1).last() == rv[i as int]);
        let (path, id, hash) = (&rows[i].0, &rows[i].1, &rows[i].2);
        let ghost before = index_view(idx@);
        match find_entry(&idx, path) {
            Some(k) => {
                proof {
                    lemma_entry_of(before, path@);
                }
                let ghost old_idx = idx@;
                let mut e = idx.remove(k);
                let ghost e0 = e;
                e.2.push(id.clone());
                assert(strings_view(e.2@) =~= strings_view(e0.2@).push(id@));
                idx.insert(k, e);
                assert(idx@ =~= old_idx.update(k as int, e));
                assert(index_view(idx@) =~= before.update(k as int, (path@, before[k as int].1, before[k as int].2.push(id@))));
            },
            None => {
                let mut ids: Vec<String> = Vec::new();
                ids.push(id.clone());
                assert(strings_view(ids@) =~= seq![id@]);
                idx.push((path.clone(), hash.clone(), ids));
                assert(index_view(idx@) =~= before.push((path@, hash@, seq![id@])));
            },
        }
        i += 1;
    }
    assert(rv.take(rows.len() as int) =~= rv);
    idx
}

/// The distinct project names of the stored chunks, sorted.
pub fn distinct_projects(names: &[String]) -> (r: Vec<String>)
    ensures
        sorted_strict(strings_view(r@)),
        strings_view(r@).to_set() == strings_view(names@).to_set(),
{
    let mut r: Vec<String> = Vec::new();
    let mut i: usize = 0;
    assert(strings_view(r@).to_set() =~= strings_view(names@).take(0).to_set());
    while i < names.len()
        invariant
            i <= names.len(),
            sorted_strict(strings_view(r@)),
            strings_view(r@).to_set() == strings_view(names@).take(i as int).to_set(),
        decreases names.len() - i,
    {
        insert_sorted(&mut r, names[i].clone());
        assert(strings_view(names@).take(i + 1) =~= strings_view(names@).take(i as int).push(names@[i as int]@));
        proof {
            strings_view(names@).take(i as int).lemma_push_to_set_commute(names@[i as int]@);
        }
        i += 1;
    }
    assert(strings_view(names@).take(names.len() as int) =~= strings_view(names@));
    r
}

} // verus!
