//! Building folder chunks at ingestion: the per-folder aggregation of a
//! repository walk and of the public definitions found in it.
use vstd::prelude::*;
use crate::sorted::{
    insert_sorted, lemma_lt_asymmetric, lemma_lt_irreflexive, lemma_lt_total, lemma_lt_transitive, lemma_sorted_unique, seq_lt,
    sorted_strict, str_lt,
};
use crate::folder::{folder_summary, folder_tuple, is_public, public_spec, FolderMeta, MAX_KEYS};
use crate::strings::{chars_of, eq, rfind_char, rfind_char_vec, slice, split_on, split_on_vec, string_of, strings_view};
use crate::types::{chunk_id_text, content_hash_of, opt_view, CodeChunk, FolderChunk};

verus! {

/// The folder holding a chunk's file: the path before its last `/`; `None`
/// for a file at the repository root.
pub open spec fn parent_folder_spec(file_path: Seq<char>) -> Option<Seq<char>> {
    match rfind_char(file_path, '/') {
        Some(i) => Some(file_path.take(i)),
        None => None,
    }
}

/// Normalized parent folder of a chunk's file path.
pub fn chunk_parent_folder(file_path: &str) -> (r: Option<String>)
    ensures
        match r {
            Some(p) => parent_folder_spec(file_path@) == Some(p@),
            None => parent_folder_spec(file_path@) is None,
        },
{
    let f = chars_of(file_path);
    match rfind_char_vec(&f, '/') {
        Some(i) => Some(string_of(&slice(&f, 0, i))),
        None => None,
    }
}

/// A folder's project: the override when given; for the root folder the
/// root directory's name; otherwise the folder's first path segment.
pub open spec fn folder_project_spec(folder_path: Seq<char>, root_name: Seq<char>, cli_override: Option<Seq<char>>) -> Seq<
    char,
> {
    match cli_override {
        Some(n) => n,
        None => if folder_path.len() == 0 {
            root_name
        } else {
            split_on(folder_path, "/"@)[0]
        },
    }
}

/// Project-name resolution for a folder; `root_name` is the name of the
/// repository root directory (`"unknown"` when it has none).
pub fn project_name_for_folder(folder_path: &str, root_name: &str, cli_override: Option<&str>) -> (r: String)
    ensures
        r@ == folder_project_spec(folder_path@, root_name@, crate::text::opt_str(cli_override)),
{
    if let Some(name) = cli_override {
        return name.to_string();
    }
    let f = chars_of(folder_path);
    if f.len() == 0 {
        return root_name.to_string();
    }
    let parts = split_on_vec(&f, &chars_of("/"));
    proof {
        crate::strings::lemma_split_on_nonempty(f@, "/"@);
    }
    assert(parts@.map_values(|w: Vec<char>| w@)[0] == parts@[0]@);
    string_of(&parts[0])
}

/// Grammar node kinds that define types (Rust, Python, TypeScript).
pub open spec fn type_node_spec(k: Seq<char>) -> bool {
    ||| k == "struct_item"@
    ||| k == "enum_item"@
    ||| k == "trait_item"@
    ||| k == "class_definition"@
    ||| k == "class_declaration"@
    ||| k == "interface_declaration"@
    ||| k == "type_alias_declaration"@
    ||| k == "enum_declaration"@
}

/// Grammar node kinds that define functions (Rust, Python, TypeScript,
/// including TypeScript arrow functions bound by `const`).
pub open spec fn function_node_spec(k: Seq<char>) -> bool {
    ||| k == "function_item"@
    ||| k == "function_definition"@
    ||| k == "function_declaration"@
    ||| k == "method_definition"@
    ||| k == "lexical_declaration"@
}

fn is_kind(k: &Vec<char>, lit: &str) -> (r: bool)
    ensures
        r == (k@ == lit@),
{
    eq(k, &chars_of(lit))
}

/// Whether a node kind defines a type.
pub fn is_type_node(node_type: &str) -> (r: bool)
    ensures
        r == type_node_spec(node_type@),
{
    let k = chars_of(node_type);
    is_kind(&k, "struct_item") || is_kind(&k, "enum_item") || is_kind(&k, "trait_item") || is_kind(
        &k,
        "class_definition",
    ) || is_kind(&k, "class_declaration") || is_kind(&k, "interface_declaration") || is_kind(
        &k,
        "type_alias_declaration",
    ) || is_kind(&k, "enum_declaration")
}

/// Whether a node kind defines a function.
pub fn is_function_node(node_type: &str) -> (r: bool)
    ensures
        r == function_node_spec(node_type@),
{
    let k = chars_of(node_type);
    is_kind(&k, "function_item") || is_kind(&k, "function_definition") || is_kind(&k, "function_declaration")
        || is_kind(&k, "method_definition") || is_kind(&k, "lexical_declaration")
}

// ---------------------------------------------------------------------------
// The repository walk
// ---------------------------------------------------------------------------

/// One entry of a repository walk, as the folder aggregation needs it;
/// paths are relative to the walked root (`""` for the root itself).
#[derive(Debug, Clone)]
pub enum WalkEntry {
    /// A directory.
    Dir(String),
    /// A file: its folder; its language, when it is a source file; and,
    /// when the folder's parent lies inside the root, that parent's path
    /// with the folder's name.
    File(String, Option<String>, Option<(String, String)>),
}

/// The entry registers folder `f`.
pub open spec fn names_folder(e: WalkEntry, f: Seq<char>) -> bool {
    match e {
        WalkEntry::Dir(p) => p@ == f,
        WalkEntry::File(parent, _, grand) => parent@ == f || match grand {
            Some(g) => g.0@ == f,
            None => false,
        },
    }
}

pub open spec fn walked_folder(es: Seq<WalkEntry>, f: Seq<char>) -> bool {
    exists|i: int| 0 <= i < es.len() && names_folder(#[trigger] es[i], f)
}

/// The entry is a source file directly in `f`.
pub open spec fn source_file_in(e: WalkEntry, f: Seq<char>) -> bool {
    match e {
        WalkEntry::File(parent, lang, _) => parent@ == f && lang is Some,
        WalkEntry::Dir(_) => false,
    }
}

/// Number of source files directly in `f`.
pub open spec fn source_count(es: Seq<WalkEntry>, f: Seq<char>) -> nat
    decreases es.len(),
{
    if es.len() == 0 {
        0
    } else {
        source_count(es.drop_last(), f) + if source_file_in(es.last(), f) {
            1nat
        } else {
            0nat
        }
    }
}

/// The entry is a source file in `f` written in language `l`.
pub open spec fn adds_language(e: WalkEntry, f: Seq<char>, l: Seq<char>) -> bool {
    match e {
        WalkEntry::File(parent, lang, _) => parent@ == f && match lang {
            Some(x) => x@ == l,
            None => false,
        },
        WalkEntry::Dir(_) => false,
    }
}

pub open spec fn walk_languages(es: Seq<WalkEntry>, f: Seq<char>) -> Set<Seq<char>> {
    Set::new(|l: Seq<char>| exists|i: int| 0 <= i < es.len() && adds_language(#[trigger] es[i], f, l))
}

/// The entry is a file in subfolder `n` of `f`.
pub open spec fn adds_subfolder(e: WalkEntry, f: Seq<char>, n: Seq<char>) -> bool {
    match e {
        WalkEntry::File(_, _, grand) => match grand {
            Some(g) => g.0@ == f && g.1@ == n,
            None => false,
        },
        WalkEntry::Dir(_) => false,
    }
}

pub open spec fn walk_subfolders(es: Seq<WalkEntry>, f: Seq<char>) -> Set<Seq<char>> {
    Set::new(|n: Seq<char>| exists|i: int| 0 <= i < es.len() && adds_subfolder(#[trigger] es[i], f, n))
}

/// Aggregated metadata of one folder during the walk.
pub struct FolderAcc {
    pub path: String,
    pub file_count: usize,
    /// Sorted, without duplicates.
    pub languages: Vec<String>,
    /// Sorted, without duplicates.
    pub subfolders: Vec<String>,
}

pub open spec fn acc_paths(acc: Seq<FolderAcc>) -> Seq<Seq<char>> {
    acc.map_values(|a: FolderAcc| a.path@)
}

/// What holds of a folder's entry after walking `es`, given the
/// subfolders it must list.
pub open spec fn acc_entry_ok(a: FolderAcc, es: Seq<WalkEntry>, subs: Set<Seq<char>>) -> bool {
    &&& a.file_count == source_count(es, a.path@)
    &&& sorted_strict(strings_view(a.languages@))
    &&& strings_view(a.languages@).to_set() == walk_languages(es, a.path@)
    &&& sorted_strict(strings_view(a.subfolders@))
    &&& strings_view(a.subfolders@).to_set() == subs
}

/// Find the entry for `key`, inserting an empty one at its sorted place
/// when there is none.
fn touch(acc: &mut Vec<FolderAcc>, key: &String) -> (idx: usize)
    requires
        sorted_strict(acc_paths(old(acc)@)),
    ensures
        idx < final(acc)@.len(),
        idx <= old(acc)@.len(),
        final(acc)@[idx as int].path@ == key@,
        sorted_strict(acc_paths(final(acc)@)),
        acc_paths(final(acc)@).to_set() == acc_paths(old(acc)@).to_set().insert(key@),
        acc_paths(old(acc)@).contains(key@) ==> final(acc)@ == old(acc)@,
        !acc_paths(old(acc)@).contains(key@) ==> {
            &&& final(acc)@ == old(acc)@.insert(idx as int, final(acc)@[idx as int])
            &&& final(acc)@[idx as int].file_count == 0
            &&& final(acc)@[idx as int].languages@.len() == 0
            &&& final(acc)@[idx as int].subfolders@.len() == 0
        },
{
    let ghost ap = acc_paths(acc@);
    let mut i: usize = 0;
    while i < acc.len() && str_lt(&acc[i].path, key)
        invariant
            i <= acc.len(),
            ap == acc_paths(acc@),
            sorted_strict(ap),
            forall|k: int| 0 <= k < i ==> seq_lt(#[trigger] ap[k], key@),
        decreases acc.len() - i,
    {
        assert(ap[i as int] == acc@[i as int].path@);
        i += 1;
    }
    if i < acc.len() && acc[i].path == *key {
        assert(ap[i as int] == key@);
        assert(ap.to_set().insert(key@) =~= ap.to_set());
        return i;
    }
    proof {
        if i < acc.len() {
            assert(ap[i as int] == acc@[i as int].path@);
            lemma_lt_total(ap[i as int], key@);
        }
        assert(!ap.contains(key@)) by {
            if ap.contains(key@) {
                let w = choose|w: int| 0 <= w < ap.len() && ap[w] == key@;
                if w < i {
                    lemma_lt_irreflexive(key@);
                } else if w > i {
                    assert(seq_lt(ap[i as int], ap[w]));
                    lemma_lt_asymmetric(key@, ap[i as int]);
                }
            }
        }
    }
    let fresh = FolderAcc { path: key.clone(), file_count: 0, languages: Vec::new(), subfolders: Vec::new() };
    acc.insert(i, fresh);
    proof {
        let np = acc_paths(acc@);
        assert(np =~= ap.insert(i as int, key@));
        assert forall|a: int, b: int| 0 <= a < b < np.len() implies seq_lt(#[trigger] np[a], #[trigger] np[b]) by {
            if b < i {
                assert(np[a] == ap[a] && np[b] == ap[b]);
            } else if b == i {
                assert(np[a] == ap[a]);
            } else if a < i {
                assert(np[a] == ap[a] && np[b] == ap[b - 1]);
                assert(seq_lt(key@, ap[i as int]));
                if b - 1 > i {
                    assert(seq_lt(ap[i as int], ap[b - 1]));
                    lemma_lt_transitive(key@, ap[i as int], ap[b - 1]);
                }
                lemma_lt_transitive(ap[a], key@, ap[b - 1]);
            } else if a == i {
                assert(np[b] == ap[b - 1]);
                if b - 1 > i {
                    assert(seq_lt(ap[i as int], ap[b - 1]));
                    lemma_lt_transitive(key@, ap[i as int], ap[b - 1]);
                }
            } else {
                assert(np[a] == ap[a - 1] && np[b] == ap[b - 1]);
            }
        }
        assert(np.to_set() =~= ap.to_set().insert(key@)) by {
            assert forall|y: Seq<char>| np.to_set().contains(y) implies ap.to_set().insert(key@).contains(y) by {
                let k = choose|k: int| 0 <= k < np.len() && np[k] == y;
                if k < i {
                    assert(ap[k] == y);
                } else if k > i {
                    assert(ap[k - 1] == y);
                }
            }
            assert forall|y: Seq<char>| ap.to_set().insert(key@).contains(y) implies np.to_set().contains(y) by {
                if y == key@ {
                    assert(np[i as int] == y);
                } else {
                    let k = choose|k: int| 0 <= k < ap.len() && ap[k] == y;
                    if k < i {
                        assert(np[k] == y);
                    } else {
                        assert(np[k + 1] == y);
                    }
                }
            }
        }
    }
    i
}

proof fn lemma_walk_push(es: Seq<WalkEntry>, e: WalkEntry, f: Seq<char>)
    ensures
        source_count(es.push(e), f) == source_count(es, f) + if source_file_in(e, f) {
            1nat
        } else {
            0nat
        },
        walk_languages(es.push(e), f) == walk_languages(es, f) + Set::new(|l: Seq<char>| adds_language(e, f, l)),
        walk_subfolders(es.push(e), f) == walk_subfolders(es, f) + Set::new(|n: Seq<char>| adds_subfolder(e, f, n)),
        walked_folder(es.push(e), f) == (walked_folder(es, f) || names_folder(e, f)),
{
    let q = es.push(e);
    assert(q.drop_last() =~= es);
    assert(walk_languages(q, f) =~= walk_languages(es, f) + Set::new(|l: Seq<char>| adds_language(e, f, l))) by {
        assert forall|l: Seq<char>| walk_languages(q, f).contains(l) implies (walk_languages(es, f) + Set::new(
            |l: Seq<char>| adds_language(e, f, l),
        )).contains(l) by {
            let i = choose|i: int| 0 <= i < q.len() && adds_language(#[trigger] q[i], f, l);
            if i < es.len() {
                assert(q[i] == es[i]);
            }
        }
        assert forall|l: Seq<char>| (walk_languages(es, f) + Set::new(|l: Seq<char>| adds_language(e, f, l))).contains(
            l,
        ) implies walk_languages(q, f).contains(l) by {
            if walk_languages(es, f).contains(l) {
                let i = choose|i: int| 0 <= i < es.len() && adds_language(#[trigger] es[i], f, l);
                assert(q[i] == es[i]);
            } else {
                assert(q[es.len() as int] == e);
            }
        }
    }
    assert(walk_subfolders(q, f) =~= walk_subfolders(es, f) + Set::new(|n: Seq<char>| adds_subfolder(e, f, n))) by {
        assert forall|n: Seq<char>| walk_subfolders(q, f).contains(n) implies (walk_subfolders(es, f) + Set::new(
            |n: Seq<char>| adds_subfolder(e, f, n),
        )).contains(n) by {
            let i = choose|i: int| 0 <= i < q.len() && adds_subfolder(#[trigger] q[i], f, n);
            if i < es.len() {
                assert(q[i] == es[i]);
            }
        }
        assert forall|n: Seq<char>| (walk_subfolders(es, f) + Set::new(|n: Seq<char>| adds_subfolder(e, f, n))).contains(
            n,
        ) implies walk_subfolders(q, f).contains(n) by {
            if walk_subfolders(es, f).contains(n) {
                let i = choose|i: int| 0 <= i < es.len() && adds_subfolder(#[trigger] es[i], f, n);
                assert(q[i] == es[i]);
            } else {
                assert(q[es.len() as int] == e);
            }
        }
    }
    if walked_folder(q, f) {
        let i = choose|i: int| 0 <= i < q.len() && names_folder(#[trigger] q[i], f);
        if i < es.len() {
            assert(q[i] == es[i]);
        }
    }
    if walked_folder(es, f) {
        let i = choose|i: int| 0 <= i < es.len() && names_folder(#[trigger] es[i], f);
        assert(q[i] == es[i]);
    }
    if names_folder(e, f) {
        assert(q[es.len() as int] == e);
    }
}

/// A folder no entry names has no files, languages or subfolders.
proof fn lemma_unwalked_empty(es: Seq<WalkEntry>, f: Seq<char>)
    requires
        !walked_folder(es, f),
    ensures
        source_count(es, f) == 0,
        walk_languages(es, f) == Set::<Seq<char>>::empty(),
        walk_subfolders(es, f) == Set::<Seq<char>>::empty(),
    decreases es.len(),
{
    if es.len() > 0 {
        let d = es.drop_last();
        assert(!walked_folder(d, f)) by {
            if walked_folder(d, f) {
                let i = choose|i: int| 0 <= i < d.len() && names_folder(#[trigger] d[i], f);
                assert(es[i] == d[i]);
            }
        }
        lemma_unwalked_empty(d, f);
        assert(es =~= d.push(es.last()));
        lemma_walk_push(d, es.last(), f);
        assert(!names_folder(es.last(), f)) by {
            if names_folder(es.last(), f) {
                assert(es[es.len() - 1] == es.last());
            }
        }
        assert(Set::new(|l: Seq<char>| adds_language(es.last(), f, l)) =~= Set::<Seq<char>>::empty());
        assert(Set::new(|n: Seq<char>| adds_subfolder(es.last(), f, n)) =~= Set::<Seq<char>>::empty());
    } else {
        assert(walk_languages(es, f) =~= Set::<Seq<char>>::empty());
        assert(walk_subfolders(es, f) =~= Set::<Seq<char>>::empty());
    }
}

proof fn lemma_source_count_bound(es: Seq<WalkEntry>, f: Seq<char>)
    ensures
        source_count(es, f) <= es.len(),
    decreases es.len(),
{
    if es.len() > 0 {
        lemma_source_count_bound(es.drop_last(), f);
    }
}

/// Count one more source file in entry `idx` and record its language.
fn add_source_file(acc: &mut Vec<FolderAcc>, idx: usize, lang: &String)
    requires
        idx < old(acc)@.len(),
        old(acc)@[idx as int].file_count < usize::MAX,
        sorted_strict(strings_view(old(acc)@[idx as int].languages@)),
    ensures
        final(acc)@.len() == old(acc)@.len(),
        forall|j: int| 0 <= j < final(acc)@.len() && j != idx ==> final(acc)@[j] == old(acc)@[j],
        final(acc)@[idx as int].path == old(acc)@[idx as int].path,
        final(acc)@[idx as int].file_count == old(acc)@[idx as int].file_count + 1,
        final(acc)@[idx as int].subfolders == old(acc)@[idx as int].subfolders,
        sorted_strict(strings_view(final(acc)@[idx as int].languages@)),
        strings_view(final(acc)@[idx as int].languages@).to_set() == strings_view(
            old(acc)@[idx as int].languages@,
        ).to_set().insert(lang@),
{
    let mut e = acc.remove(idx);
    e.file_count = e.file_count + 1;
    insert_sorted(&mut e.languages, lang.clone());
    acc.insert(idx, e);
}

/// Record subfolder `name` in entry `idx`.
fn add_subfolder(acc: &mut Vec<FolderAcc>, idx: usize, name: &String)
    requires
        idx < old(acc)@.len(),
        sorted_strict(strings_view(old(acc)@[idx as int].subfolders@)),
    ensures
        final(acc)@.len() == old(acc)@.len(),
        forall|j: int| 0 <= j < final(acc)@.len() && j != idx ==> final(acc)@[j] == old(acc)@[j],
        final(acc)@[idx as int].path == old(acc)@[idx as int].path,
        final(acc)@[idx as int].file_count == old(acc)@[idx as int].file_count,
        final(acc)@[idx as int].languages == old(acc)@[idx as int].languages,
        sorted_strict(strings_view(final(acc)@[idx as int].subfolders@)),
        strings_view(final(acc)@[idx as int].subfolders@).to_set() == strings_view(
            old(acc)@[idx as int].subfolders@,
        ).to_set().insert(name@),
{
    let mut e = acc.remove(idx);
    insert_sorted(&mut e.subfolders, name.clone());
    acc.insert(idx, e);
}

/// An entry's count and languages as walked over `ec`, its subfolders as
/// walked over `esub`.
pub open spec fn walk_entry_ok(a: FolderAcc, ec: Seq<WalkEntry>, esub: Seq<WalkEntry>) -> bool {
    acc_entry_ok(a, ec, walk_subfolders(esub, a.path@))
}

/// What the folder table holds after walking `es`: sorted by path, one
/// entry per folder some entry names, each with its count, languages and
/// subfolders.
pub open spec fn walk_table_ok(acc: Seq<FolderAcc>, es: Seq<WalkEntry>) -> bool {
    &&& sorted_strict(acc_paths(acc))
    &&& forall|f: Seq<char>| #[trigger] acc_paths(acc).contains(f) == walked_folder(es, f)
    &&& forall|j: int| 0 <= j < acc.len() ==> walk_entry_ok(#[trigger] acc[j], es, es)
}

proof fn lemma_fresh_entry_ok(a: FolderAcc, ec: Seq<WalkEntry>, esub: Seq<WalkEntry>)
    requires
        a.file_count == 0,
        a.languages@.len() == 0,
        a.subfolders@.len() == 0,
        !walked_folder(ec, a.path@),
        !walked_folder(esub, a.path@),
    ensures
        walk_entry_ok(a, ec, esub),
{
    lemma_unwalked_empty(ec, a.path@);
    lemma_unwalked_empty(esub, a.path@);
    assert(strings_view(a.languages@).to_set() =~= Set::<Seq<char>>::empty());
    assert(strings_view(a.subfolders@).to_set() =~= Set::<Seq<char>>::empty());
}

/// Touching a folder keeps every entry satisfying `walk_entry_ok(·, ec,
/// esub)` when the folder is new to both walks.
proof fn lemma_touch_keeps(
    old_acc: Seq<FolderAcc>,
    new_acc: Seq<FolderAcc>,
    idx: int,
    key: Seq<char>,
    ec: Seq<WalkEntry>,
    esub: Seq<WalkEntry>,
)
    requires
        0 <= idx < new_acc.len(),
        idx <= old_acc.len(),
        new_acc[idx].path@ == key,
        forall|j: int| 0 <= j < old_acc.len() ==> walk_entry_ok(#[trigger] old_acc[j], ec, esub),
        acc_paths(old_acc).contains(key) ==> new_acc == old_acc,
        !acc_paths(old_acc).contains(key) ==> {
            &&& new_acc == old_acc.insert(idx, new_acc[idx])
            &&& new_acc[idx].file_count == 0
            &&& new_acc[idx].languages@.len() == 0
            &&& new_acc[idx].subfolders@.len() == 0
            &&& !walked_folder(ec, key)
            &&& !walked_folder(esub, key)
        },
    ensures
        forall|j: int| 0 <= j < new_acc.len() ==> walk_entry_ok(#[trigger] new_acc[j], ec, esub),
{
    if !acc_paths(old_acc).contains(key) {
        old_acc.insert_ensures(idx, new_acc[idx]);
        lemma_fresh_entry_ok(new_acc[idx], ec, esub);
        assert forall|j: int| 0 <= j < new_acc.len() implies walk_entry_ok(#[trigger] new_acc[j], ec, esub) by {
            if j < idx {
                assert(new_acc[j] == old_acc[j]);
            } else if j > idx {
                assert(new_acc[j] == old_acc[j - 1]);
            }
        }
    }
}

/// Aggregate the walk: per folder, its source-file count, languages and
/// subfolders, sorted by folder path.
fn aggregate_walk(entries: &[WalkEntry]) -> (acc: Vec<FolderAcc>)
    ensures
        walk_table_ok(acc@, entries@),
{
    let ghost es = entries@;
    let mut acc: Vec<FolderAcc> = Vec::new();
    let mut i: usize = 0;
    proof {
        assert(acc_paths(acc@) =~= Seq::<Seq<char>>::empty());
        assert forall|f: Seq<char>| #[trigger] acc_paths(acc@).contains(f) == walked_folder(es.take(0), f) by {
            assert(es.take(0).len() == 0);
        }
    }
    while i < entries.len()
        invariant
            i <= entries.len(),
            es == entries@,
            walk_table_ok(acc@, es.take(i as int)),
        decreases entries.len() - i,
    {
        let ghost e0 = es.take(i as int);
        let ghost e1 = es.take(i + 1);
        let ghost a0 = acc@;
        assert(e1 =~= e0.push(es[i as int]));
        match &entries[i] {
            WalkEntry::Dir(p) => {
                let idx = touch(&mut acc, p);
                proof {
                    let e = es[i as int];
                    assert forall|f: Seq<char>| #[trigger] acc_paths(acc@).contains(f) == walked_folder(e1, f) by {
                        lemma_walk_push(e0, e, f);
                        assert(acc_paths(a0).to_set().insert(p@).contains(f) == acc_paths(acc@).to_set().contains(f));
                    }
                    if !acc_paths(a0).contains(p@) {
                        assert(!walked_folder(e0, p@));
                    }
                    lemma_touch_keeps(a0, acc@, idx as int, p@, e0, e0);
                    assert forall|j: int| 0 <= j < acc@.len() implies walk_entry_ok(#[trigger] acc@[j], e1, e1) by {
                        let q = acc@[j].path@;
                        lemma_walk_push(e0, e, q);
                        assert(Set::new(|l: Seq<char>| adds_language(e, q, l)) =~= Set::<Seq<char>>::empty());
                        assert(Set::new(|n: Seq<char>| adds_subfolder(e, q, n)) =~= Set::<Seq<char>>::empty());
                        assert(walk_languages(e1, q) =~= walk_languages(e0, q));
                        assert(walk_subfolders(e1, q) =~= walk_subfolders(e0, q));
                    }
                }
            },
            WalkEntry::File(parent, lang, grand) => {
                let e = &entries[i];
                let idx = touch(&mut acc, parent);
                let ghost a1 = acc@;
                proof {
                    if !acc_paths(a0).contains(parent@) {
                        assert(!walked_folder(e0, parent@));
                    }
                    lemma_touch_keeps(a0, acc@, idx as int, parent@, e0, e0);
                }
                match lang {
                    Some(l) => {
                        proof {
                            lemma_source_count_bound(e0, parent@);
                            assert(acc@[idx as int].file_count == source_count(e0, parent@));
                        }
                        add_source_file(&mut acc, idx, l);
                    },
                    None => {},
                }
                let ghost a2 = acc@;
                // Counts and languages now reflect the new entry; subfolders
                // still those of the walk before it.
                proof {
                    assert forall|j: int| 0 <= j < a2.len() implies walk_entry_ok(#[trigger] a2[j], e1, e0) by {
                        let q = a2[j].path@;
                        lemma_walk_push(e0, es[i as int], q);
                        assert(walk_entry_ok(a1[j], e0, e0));
                        if j == idx {
                            match lang {
                                Some(l) => {
                                    assert(Set::new(|x: Seq<char>| adds_language(es[i as int], q, x)) =~= set![l@]);
                                    assert(walk_languages(e1, q) =~= walk_languages(e0, q).insert(l@));
                                },
                                None => {
                                    assert(Set::new(|x: Seq<char>| adds_language(es[i as int], q, x)) =~= Set::<Seq<char>>::empty());
                                    assert(walk_languages(e1, q) =~= walk_languages(e0, q));
                                },
                            }
                        } else {
                            assert(a2[j] == a1[j]);
                            crate::sorted::lemma_sorted_no_dup(acc_paths(a1));
                            assert(acc_paths(a1)[j] != acc_paths(a1)[idx as int]);
                            assert(q != parent@);
                            assert(Set::new(|x: Seq<char>| adds_language(es[i as int], q, x)) =~= Set::<Seq<char>>::empty());
                            assert(walk_languages(e1, q) =~= walk_languages(e0, q));
                        }
                    }
                    assert forall|f: Seq<char>| #[trigger] acc_paths(a2).contains(f) == acc_paths(a1).contains(f) by {
                        if acc_paths(a2).contains(f) {
                            let w = choose|w: int| 0 <= w < acc_paths(a2).len() && acc_paths(a2)[w] == f;
                            assert(acc_paths(a1)[w] == f);
                        }
                        if acc_paths(a1).contains(f) {
                            let w = choose|w: int| 0 <= w < acc_paths(a1).len() && acc_paths(a1)[w] == f;
                            assert(acc_paths(a2)[w] == f);
                        }
                    }
                    assert(acc_paths(a2) =~= acc_paths(a1)) by {
                        assert forall|w: int| 0 <= w < a2.len() implies acc_paths(a2)[w] == acc_paths(a1)[w] by {
                            if w != idx {
                                assert(a2[w] == a1[w]);
                            }
                        }
                    }
                }
                match grand {
                    Some(gn) => {
                        let gi = touch(&mut acc, &gn.0);
                        let ghost a3 = acc@;
                        proof {
                            if !acc_paths(a2).contains(gn.0@) {
                                assert(acc_paths(a2).to_set().contains(gn.0@) == acc_paths(a1).to_set().contains(gn.0@));
                                assert(acc_paths(a1).to_set().contains(gn.0@) == acc_paths(a0).to_set().insert(parent@).contains(gn.0@));
                                assert(acc_paths(a0).contains(gn.0@) == walked_folder(e0, gn.0@));
                                assert(!walked_folder(e0, gn.0@));
                                assert(gn.0@ != parent@) by {
                                    assert(acc_paths(a1)[idx as int] == parent@);
                                }
                                lemma_walk_push(e0, es[i as int], gn.0@);
                                assert(!source_file_in(es[i as int], gn.0@));
                            }
                        }
                        add_subfolder(&mut acc, gi, &gn.1);
                        proof {
                            let a4 = acc@;
                            // Entries untouched by this step keep their
                            // fields; the grandparent gains the subfolder.
                            if !acc_paths(a2).contains(gn.0@) {
                                lemma_unwalked_empty(e0, gn.0@);
                                lemma_walk_push(e0, es[i as int], gn.0@);
                                assert(Set::new(|x: Seq<char>| adds_language(es[i as int], gn.0@, x)) =~= Set::<Seq<char>>::empty());
                            }
                            assert forall|j: int| 0 <= j < a4.len() implies walk_entry_ok(#[trigger] a4[j], e1, e1) by {
                                let q = a4[j].path@;
                                lemma_walk_push(e0, es[i as int], q);
                                if j == gi {
                                    assert(Set::new(|x: Seq<char>| adds_subfolder(es[i as int], q, x)) =~= set![gn.1@]);
                                    assert(walk_subfolders(e1, q) =~= walk_subfolders(e0, q).insert(gn.1@));
                                    if acc_paths(a2).contains(gn.0@) {
                                        assert(a3 == a2);
                                        assert(walk_entry_ok(a2[j], e1, e0));
                                    } else {
                                        assert(walk_languages(e1, q) =~= walk_languages(e0, q));
                                        assert(strings_view(a3[j].subfolders@).to_set() =~= Set::<Seq<char>>::empty());
                                        assert(strings_view(a3[j].languages@).to_set() =~= Set::<Seq<char>>::empty());
                                        assert(walk_subfolders(e0, q) =~= Set::<Seq<char>>::empty());
                                        assert(walk_languages(e0, q) =~= Set::<Seq<char>>::empty());
                                    }
                                } else {
                                    assert(a4[j] == a3[j]);
                                    crate::sorted::lemma_sorted_no_dup(acc_paths(a3));
                                    assert(acc_paths(a3)[j] != acc_paths(a3)[gi as int]);
                                    assert(q != gn.0@);
                                    assert(Set::new(|x: Seq<char>| adds_subfolder(es[i as int], q, x)) =~= Set::<Seq<char>>::empty());
                                    assert(walk_subfolders(e1, q) =~= walk_subfolders(e0, q));
                                    if acc_paths(a2).contains(gn.0@) {
                                        assert(a3 == a2);
                                        assert(walk_entry_ok(a2[j], e1, e0));
                                    } else if j < gi {
                                        assert(a3[j] == a2[j]);
                                        assert(walk_entry_ok(a2[j], e1, e0));
                                    } else {
                                        assert(a3[j] == a2[j - 1]);
                                        assert(walk_entry_ok(a2[j - 1], e1, e0));
                                    }
                                }
                            }
                            assert(acc_paths(a4) =~= acc_paths(a3)) by {
                                assert forall|w: int| 0 <= w < a4.len() implies acc_paths(a4)[w] == acc_paths(a3)[w] by {
                                    if w != gi {
                                        assert(a4[w] == a3[w]);
                                    }
                                }
                            }
                            assert forall|f: Seq<char>| #[trigger] acc_paths(a4).contains(f) == walked_folder(e1, f) by {
                                lemma_walk_push(e0, es[i as int], f);
                                assert(acc_paths(a1).to_set().contains(f) == acc_paths(a0).to_set().insert(parent@).contains(f));
                                assert(acc_paths(a3).to_set().contains(f) == acc_paths(a2).to_set().insert(gn.0@).contains(f));
                                assert(acc_paths(a2).to_set().contains(f) == acc_paths(a1).to_set().contains(f));
                            }
                        }
                    },
                    None => {
                        proof {
                            let a4 = acc@;
                            assert forall|j: int| 0 <= j < a4.len() implies walk_entry_ok(#[trigger] a4[j], e1, e1) by {
                                let q = a4[j].path@;
                                lemma_walk_push(e0, es[i as int], q);
                                assert(Set::new(|x: Seq<char>| adds_subfolder(es[i as int], q, x)) =~= Set::<Seq<char>>::empty());
                                assert(walk_subfolders(e1, q) =~= walk_subfolders(e0, q));
                            }
                            assert forall|f: Seq<char>| #[trigger] acc_paths(a4).contains(f) == walked_folder(e1, f) by {
                                lemma_walk_push(e0, es[i as int], f);
                                assert(acc_paths(a1).to_set().contains(f) == acc_paths(a0).to_set().insert(parent@).contains(f));
                                assert(acc_paths(a2).to_set().contains(f) == acc_paths(a1).to_set().contains(f));
                            }
                        }
                    },
                }
            },
        }
        i += 1;
    }
    assert(es.take(entries.len() as int) =~= es);
    acc
}

// ---------------------------------------------------------------------------
// Folders registered by their subdirectories
// ---------------------------------------------------------------------------

/// The path of a folder's parent (`""` at the top level).
pub open spec fn dir_parent(k: Seq<char>) -> Seq<char> {
    match rfind_char(k, '/') {
        Some(i) => k.take(i),
        None => seq![],
    }
}

/// A folder's own name.
pub open spec fn dir_name(k: Seq<char>) -> Seq<char> {
    match rfind_char(k, '/') {
        Some(i) => k.skip(i + 1),
        None => k,
    }
}

/// Folders of the result: those the walk names, and the parents of the
/// non-root ones.
pub open spec fn is_folder(es: Seq<WalkEntry>, f: Seq<char>) -> bool {
    walked_folder(es, f) || exists|k: Seq<char>| #[trigger] walked_folder(es, k) && k.len() > 0 && dir_parent(k) == f
}

/// Names of the walked non-root folders whose parent is `f`.
pub open spec fn dir_children(es: Seq<WalkEntry>, f: Seq<char>) -> Set<Seq<char>> {
    Set::new(
        |n: Seq<char>|
            exists|k: Seq<char>| #[trigger] walked_folder(es, k) && k.len() > 0 && dir_parent(k) == f && dir_name(k) == n,
    )
}

/// A folder's subfolders: those seen through files, and its walked child
/// folders.
pub open spec fn folder_subfolders(es: Seq<WalkEntry>, f: Seq<char>) -> Set<Seq<char>> {
    walk_subfolders(es, f) + dir_children(es, f)
}

/// Names of the first `j` listed folders (non-root) whose parent is `f`.
pub open spec fn listed_children(d: Seq<Seq<char>>, j: int, f: Seq<char>) -> Set<Seq<char>> {
    Set::new(|n: Seq<char>| exists|w: int| 0 <= w < j && (#[trigger] d[w]).len() > 0 && dir_parent(d[w]) == f && dir_name(d[w]) == n)
}

pub open spec fn linked_entry_ok(a: FolderAcc, es: Seq<WalkEntry>, d: Seq<Seq<char>>, j: int) -> bool {
    acc_entry_ok(a, es, walk_subfolders(es, a.path@) + listed_children(d, j, a.path@))
}

proof fn lemma_insert_keeps(old_acc: Seq<FolderAcc>, new_acc: Seq<FolderAcc>, idx: int, p: spec_fn(FolderAcc) -> bool)
    requires
        0 <= idx <= old_acc.len(),
        new_acc == old_acc.insert(idx, new_acc[idx]),
        forall|j: int| 0 <= j < old_acc.len() ==> p(#[trigger] old_acc[j]),
        p(new_acc[idx]),
    ensures
        forall|j: int| 0 <= j < new_acc.len() ==> p(#[trigger] new_acc[j]),
{
    old_acc.insert_ensures(idx, new_acc[idx]);
    assert forall|j: int| 0 <= j < new_acc.len() implies p(#[trigger] new_acc[j]) by {
        if j < idx {
            assert(new_acc[j] == old_acc[j]);
        } else if j > idx {
            assert(new_acc[j] == old_acc[j - 1]);
        }
    }
}

fn copy_paths(acc: &Vec<FolderAcc>) -> (r: Vec<String>)
    ensures
        strings_view(r@) == acc_paths(acc@),
{
    let mut r: Vec<String> = Vec::new();
    let mut i: usize = 0;
    while i < acc.len()
        invariant
            i <= acc.len(),
            strings_view(r@) == acc_paths(acc@).take(i as int),
        decreases acc.len() - i,
    {
        let ghost before = strings_view(r@);
        r.push(acc[i].path.clone());
        assert(strings_view(r@) =~= before.push(acc@[i as int].path@));
        assert(acc_paths(acc@).take(i + 1) =~= acc_paths(acc@).take(i as int).push(acc@[i as int].path@));
        i += 1;
    }
    assert(acc_paths(acc@).take(acc.len() as int) =~= acc_paths(acc@));
    r
}

/// Register every non-root walked folder as a subfolder of its parent,
/// adding the parent when the walk did not name it.
fn link_dir_parents(acc: &mut Vec<FolderAcc>, Ghost(es): Ghost<Seq<WalkEntry>>)
    requires
        walk_table_ok(old(acc)@, es),
    ensures
        sorted_strict(acc_paths(final(acc)@)),
        forall|f: Seq<char>| #[trigger] acc_paths(final(acc)@).contains(f) == is_folder(es, f),
        forall|j: int| 0 <= j < final(acc)@.len() ==> acc_entry_ok(
            #[trigger] final(acc)@[j],
            es,
            folder_subfolders(es, final(acc)@[j].path@),
        ),
{
    let dirs = copy_paths(acc);
    let ghost d = strings_view(dirs@);
    let ghost a_start = acc@;
    let mut j: usize = 0;
    proof {
        assert forall|k: int| 0 <= k < acc@.len() implies linked_entry_ok(#[trigger] acc@[k], es, d, 0) by {
            assert(walk_entry_ok(acc@[k], es, es));
            assert(listed_children(d, 0, acc@[k].path@) =~= Set::<Seq<char>>::empty());
            assert(walk_subfolders(es, acc@[k].path@) + Set::<Seq<char>>::empty() =~= walk_subfolders(es, acc@[k].path@));
        }
    }
    while j < dirs.len()
        invariant
            j <= dirs.len(),
            d == strings_view(dirs@),
            d == acc_paths(a_start),
            walk_table_ok(a_start, es),
            sorted_strict(acc_paths(acc@)),
            forall|f: Seq<char>| #[trigger] acc_paths(acc@).contains(f) == (walked_folder(es, f) || exists|w: int|
                0 <= w < j && (#[trigger] d[w]).len() > 0 && dir_parent(d[w]) == f),
            forall|k: int| 0 <= k < acc@.len() ==> linked_entry_ok(#[trigger] acc@[k], es, d, j as int),
        decreases dirs.len() - j,
    {
        let ghost a0 = acc@;
        let k = chars_of(dirs[j].as_str());
        if k.len() == 0 {
            proof {
                assert forall|q: int| 0 <= q < acc@.len() implies linked_entry_ok(#[trigger] acc@[q], es, d, j + 1) by {
                    assert(listed_children(d, j + 1, acc@[q].path@) =~= listed_children(d, j as int, acc@[q].path@));
                }
                assert forall|f: Seq<char>| #[trigger] acc_paths(acc@).contains(f) == (walked_folder(es, f) || exists|w: int|
                    0 <= w < j + 1 && (#[trigger] d[w]).len() > 0 && dir_parent(d[w]) == f) by {
                }
            }
        } else {
            let (parent, name) = match rfind_char_vec(&k, '/') {
                Some(i) => (string_of(&slice(&k, 0, i)), string_of(&slice(&k, i + 1, k.len()))),
                None => (String::new(), string_of(&k)),
            };
            assert(parent@ == dir_parent(d[j as int]) && name@ == dir_name(d[j as int]));
            let pi = touch(acc, &parent);
            let ghost a1 = acc@;
            proof {
                if !acc_paths(a0).contains(parent@) {
                    assert(!walked_folder(es, parent@));
                    lemma_unwalked_empty(es, parent@);
                    assert(listed_children(d, j as int, parent@) =~= Set::<Seq<char>>::empty()) by {
                        assert forall|n: Seq<char>| !listed_children(d, j as int, parent@).contains(n) by {
                            if listed_children(d, j as int, parent@).contains(n) {
                                let w = choose|w: int| 0 <= w < j && (#[trigger] d[w]).len() > 0 && dir_parent(d[w]) == parent@ && dir_name(d[w]) == n;
                                assert(acc_paths(a0).contains(parent@));
                            }
                        }
                    }
                    assert(strings_view(a1[pi as int].languages@).to_set() =~= Set::<Seq<char>>::empty());
                    assert(strings_view(a1[pi as int].subfolders@).to_set() =~= Set::<Seq<char>>::empty());
                    assert(walk_subfolders(es, parent@) + listed_children(d, j as int, parent@) =~= Set::<Seq<char>>::empty());
                    lemma_insert_keeps(a0, a1, pi as int, |a: FolderAcc| linked_entry_ok(a, es, d, j as int));
                }
            }
            add_subfolder(acc, pi, &name);
            proof {
                let a2 = acc@;
                crate::sorted::lemma_sorted_no_dup(acc_paths(a1));
                assert forall|q: int| 0 <= q < a2.len() implies linked_entry_ok(#[trigger] a2[q], es, d, j + 1) by {
                    let path = a2[q].path@;
                    assert(linked_entry_ok(a1[q], es, d, j as int));
                    if q == pi {
                        assert(listed_children(d, j + 1, path) =~= listed_children(d, j as int, path).insert(name@));
                        assert(walk_subfolders(es, path) + listed_children(d, j + 1, path) =~= (walk_subfolders(es, path)
                            + listed_children(d, j as int, path)).insert(name@));
                    } else {
                        assert(a2[q] == a1[q]);
                        assert(acc_paths(a1)[q] != acc_paths(a1)[pi as int]);
                        assert(listed_children(d, j + 1, path) =~= listed_children(d, j as int, path));
                    }
                }
                assert(acc_paths(a2) =~= acc_paths(a1)) by {
                    assert forall|w: int| 0 <= w < a2.len() implies acc_paths(a2)[w] == acc_paths(a1)[w] by {
                        if w != pi {
                            assert(a2[w] == a1[w]);
                        }
                    }
                }
                assert forall|f: Seq<char>| #[trigger] acc_paths(a2).contains(f) == (walked_folder(es, f) || exists|w: int|
                    0 <= w < j + 1 && (#[trigger] d[w]).len() > 0 && dir_parent(d[w]) == f) by {
                    assert(acc_paths(a1).to_set().contains(f) == acc_paths(a0).to_set().insert(parent@).contains(f));
                    if f == parent@ {
                        assert(d[j as int].len() > 0 && dir_parent(d[j as int]) == f);
                    }
                }
            }
        }
        j += 1;
    }
    proof {
        // The listed folders are exactly the walked ones.
        assert forall|k: Seq<char>| walked_folder(es, k) == d.contains(k) by {
            assert(acc_paths(a_start).contains(k) == walked_folder(es, k));
        }
        assert forall|f: Seq<char>| #[trigger] acc_paths(acc@).contains(f) == is_folder(es, f) by {
            if acc_paths(acc@).contains(f) && !walked_folder(es, f) {
                let w = choose|w: int| 0 <= w < j && (#[trigger] d[w]).len() > 0 && dir_parent(d[w]) == f;
                assert(d.contains(d[w]));
                assert(walked_folder(es, d[w]));
            }
            if is_folder(es, f) && !walked_folder(es, f) {
                let k = choose|k: Seq<char>| #[trigger] walked_folder(es, k) && k.len() > 0 && dir_parent(k) == f;
                assert(d.contains(k));
                let w = choose|w: int| 0 <= w < d.len() && d[w] == k;
                assert(d[w].len() > 0 && dir_parent(d[w]) == f);
            }
        }
        assert forall|q: int| 0 <= q < acc@.len() implies acc_entry_ok(#[trigger] acc@[q], es, folder_subfolders(es, acc@[q].path@)) by {
            let f = acc@[q].path@;
            assert(linked_entry_ok(acc@[q], es, d, j as int));
            assert(listed_children(d, j as int, f) =~= dir_children(es, f)) by {
                assert forall|n: Seq<char>| listed_children(d, j as int, f).contains(n) implies dir_children(es, f).contains(n) by {
                    let w = choose|w: int| 0 <= w < j && (#[trigger] d[w]).len() > 0 && dir_parent(d[w]) == f && dir_name(d[w]) == n;
                    assert(d.contains(d[w]));
                    assert(walked_folder(es, d[w]));
                }
                assert forall|n: Seq<char>| dir_children(es, f).contains(n) implies listed_children(d, j as int, f).contains(n) by {
                    let k = choose|k: Seq<char>| #[trigger] walked_folder(es, k) && k.len() > 0 && dir_parent(k) == f && dir_name(k) == n;
                    assert(d.contains(k));
                    let w = choose|w: int| 0 <= w < d.len() && d[w] == k;
                    assert(d[w].len() > 0);
                }
            }
        }
    }
}

// ---------------------------------------------------------------------------
// Key definitions and the folder chunks
// ---------------------------------------------------------------------------

/// A public type defined in a file directly inside `f`.
pub open spec fn key_type_in(c: CodeChunk, f: Seq<char>) -> bool {
    &&& parent_folder_spec(c.file_path@) == Some(f)
    &&& public_spec(c.language@, opt_view(c.signature), c.identifier@)
    &&& type_node_spec(c.node_type@)
}

/// A public function defined in a file directly inside `f`.
pub open spec fn key_function_in(c: CodeChunk, f: Seq<char>) -> bool {
    &&& parent_folder_spec(c.file_path@) == Some(f)
    &&& public_spec(c.language@, opt_view(c.signature), c.identifier@)
    &&& !type_node_spec(c.node_type@)
    &&& function_node_spec(c.node_type@)
}

pub open spec fn key_types(chunks: Seq<CodeChunk>, f: Seq<char>) -> Set<Seq<char>> {
    Set::new(|id: Seq<char>| exists|i: int| 0 <= i < chunks.len() && key_type_in(#[trigger] chunks[i], f) && chunks[i].identifier@ == id)
}

pub open spec fn key_functions(chunks: Seq<CodeChunk>, f: Seq<char>) -> Set<Seq<char>> {
    Set::new(
        |id: Seq<char>| exists|i: int| 0 <= i < chunks.len() && key_function_in(#[trigger] chunks[i], f) && chunks[i].identifier@ == id,
    )
}

/// `t` is the first `k` elements (all, when fewer) of the sorted listing of `s`.
pub open spec fn smallest_sorted(t: Seq<Seq<char>>, s: Set<Seq<char>>, k: nat) -> bool {
    exists|full: Seq<Seq<char>>|
        #[trigger] sorted_strict(full) && full.to_set() == s && t == full.take(
            if full.len() < k {
                full.len() as int
            } else {
                k as int
            },
        )
}

/// The folder has something to summarise.
pub open spec fn folder_kept(es: Seq<WalkEntry>, chunks: Seq<CodeChunk>, f: Seq<char>) -> bool {
    !(source_count(es, f) == 0 && folder_subfolders(es, f).is_empty() && key_types(chunks, f).is_empty()
        && key_functions(chunks, f).is_empty())
}

/// A folder chunk built from the walk and the code chunks.
pub open spec fn folder_chunk_spec(
    ch: FolderChunk,
    es: Seq<WalkEntry>,
    chunks: Seq<CodeChunk>,
    root_name: Seq<char>,
    cli_override: Option<Seq<char>>,
    model: Seq<char>,
) -> bool {
    let f = ch.folder_path@;
    let langs = strings_view(ch.languages@);
    let subs = strings_view(ch.subfolders@);
    let kt = strings_view(ch.key_types@);
    let kf = strings_view(ch.key_functions@);
    &&& ch.file_count == source_count(es, f)
    &&& sorted_strict(langs) && langs.to_set() == walk_languages(es, f)
    &&& sorted_strict(subs) && subs.to_set() == folder_subfolders(es, f)
    &&& smallest_sorted(kt, key_types(chunks, f), MAX_KEYS as nat)
    &&& smallest_sorted(kf, key_functions(chunks, f), MAX_KEYS as nat)
    &&& ch.summary_text@ == folder_summary(f, ch.file_count as nat, langs, kt, kf, subs)
    &&& ch.content_hash@ == content_hash_of(folder_tuple(f, ch.file_count as nat, langs, kt, kf, subs))
    &&& ch.chunk_id@ == content_hash_of(chunk_id_text(f, ch.summary_text@))
    &&& ch.project_name@ == folder_project_spec(f, root_name, cli_override)
    &&& ch.embedding_model_version@ == model
}

pub open spec fn chunk_paths(out: Seq<FolderChunk>) -> Seq<Seq<char>> {
    out.map_values(|c: FolderChunk| c.folder_path@)
}

/// The folder chunks of a walk: one per folder that has something to
/// summarise, sorted by path, each built from the walk and the code chunks.
pub open spec fn folder_chunks_result(
    r: Seq<FolderChunk>,
    es: Seq<WalkEntry>,
    chunks: Seq<CodeChunk>,
    root_name: Seq<char>,
    cli_override: Option<Seq<char>>,
    model: Seq<char>,
) -> bool {
    &&& sorted_strict(chunk_paths(r))
    &&& forall|f: Seq<char>| #[trigger] chunk_paths(r).contains(f) == (is_folder(es, f) && folder_kept(es, chunks, f))
    &&& forall|j: int| 0 <= j < r.len() ==> folder_chunk_spec(#[trigger] r[j], es, chunks, root_name, cli_override, model)
}

fn opt_as_str(o: &Option<String>) -> (r: Option<&str>)
    ensures
        crate::text::opt_str(r) == opt_view(*o),
{
    match o {
        Some(s) => Some(s.as_str()),
        None => None,
    }
}

/// The sorted identifiers of the public types (`want_types`) or functions
/// defined directly in folder `f`.
fn folder_keys(chunks: &[CodeChunk], f: &String, want_types: bool) -> (r: Vec<String>)
    ensures
        sorted_strict(strings_view(r@)),
        want_types ==> strings_view(r@).to_set() == key_types(chunks@, f@),
        !want_types ==> strings_view(r@).to_set() == key_functions(chunks@, f@),
{
    let ghost cs = chunks@;
    let mut r: Vec<String> = Vec::new();
    let mut i: usize = 0;
    proof {
        assert(strings_view(r@).to_set() =~= Set::<Seq<char>>::empty());
    }
    while i < chunks.len()
        invariant
            i <= chunks.len(),
            cs == chunks@,
            sorted_strict(strings_view(r@)),
            want_types ==> strings_view(r@).to_set() == Set::new(|id: Seq<char>| exists|k: int| 0 <= k < i && key_type_in(#[trigger] cs[k], f@) && cs[k].identifier@ == id),
            !want_types ==> strings_view(r@).to_set() == Set::new(|id: Seq<char>| exists|k: int| 0 <= k < i && key_function_in(#[trigger] cs[k], f@) && cs[k].identifier@ == id),
        decreases chunks.len() - i,
    {
        let c = &chunks[i];
        let in_folder = match chunk_parent_folder(c.file_path.as_str()) {
            Some(p) => p == *f,
            None => false,
        };
        let wanted = in_folder && is_public(c.language.as_str(), opt_as_str(&c.signature), c.identifier.as_str()) && if want_types {
            is_type_node(c.node_type.as_str())
        } else {
            !is_type_node(c.node_type.as_str()) && is_function_node(c.node_type.as_str())
        };
        assert(want_types ==> wanted == key_type_in(cs[i as int], f@));
        assert(!want_types ==> wanted == key_function_in(cs[i as int], f@));
        let ghost before = strings_view(r@).to_set();
        if wanted {
            insert_sorted(&mut r, c.identifier.clone());
        }
        proof {
            if want_types {
                assert(strings_view(r@).to_set() =~= Set::new(|id: Seq<char>| exists|k: int| 0 <= k < i + 1 && key_type_in(#[trigger] cs[k], f@) && cs[k].identifier@ == id)) by {
                    assert forall|id: Seq<char>| (exists|k: int| 0 <= k < i + 1 && key_type_in(#[trigger] cs[k], f@) && cs[k].identifier@ == id) implies strings_view(r@).to_set().contains(id) by {
                        let k = choose|k: int| 0 <= k < i + 1 && key_type_in(#[trigger] cs[k], f@) && cs[k].identifier@ == id;
                        if k < i {
                            assert(before.contains(id));
                        }
                    }
                }
            } else {
                assert(strings_view(r@).to_set() =~= Set::new(|id: Seq<char>| exists|k: int| 0 <= k < i + 1 && key_function_in(#[trigger] cs[k], f@) && cs[k].identifier@ == id)) by {
                    assert forall|id: Seq<char>| (exists|k: int| 0 <= k < i + 1 && key_function_in(#[trigger] cs[k], f@) && cs[k].identifier@ == id) implies strings_view(r@).to_set().contains(id) by {
                        let k = choose|k: int| 0 <= k < i + 1 && key_function_in(#[trigger] cs[k], f@) && cs[k].identifier@ == id;
                        if k < i {
                            assert(before.contains(id));
                        }
                    }
                }
            }
        }
        i += 1;
    }
    proof {
        if want_types {
            assert(strings_view(r@).to_set() =~= key_types(chunks@, f@));
        } else {
            assert(strings_view(r@).to_set() =~= key_functions(chunks@, f@));
        }
    }
    r
}

/// The first `k` strings (all, when fewer).
fn take_first(v: &Vec<String>, k: usize) -> (r: Vec<String>)
    ensures
        strings_view(r@) == strings_view(v@).take(if v.len() < k { v.len() as int } else { k as int }),
{
    let n = if v.len() < k { v.len() } else { k };
    let mut r: Vec<String> = Vec::new();
    let mut i: usize = 0;
    while i < n
        invariant
            i <= n,
            n <= v.len(),
            strings_view(r@) == strings_view(v@).take(i as int),
        decreases n - i,
    {
        let ghost before = strings_view(r@);
        r.push(v[i].clone());
        assert(strings_view(r@) =~= before.push(v@[i as int]@));
        assert(strings_view(v@).take(i + 1) =~= strings_view(v@).take(i as int).push(v@[i as int]@));
        i += 1;
    }
    r
}

fn copy_strings(v: &Vec<String>) -> (r: Vec<String>)
    ensures
        strings_view(r@) == strings_view(v@),
{
    take_first(v, v.len())
}

/// The folder chunk of one aggregated folder, or `None` when it has
/// nothing to summarise.
fn folder_chunk_of(
    a: &FolderAcc,
    code_chunks: &[CodeChunk],
    root_name: &str,
    project_name_override: Option<&str>,
    embedding_model_version: &str,
    Ghost(es): Ghost<Seq<WalkEntry>>,
) -> (r: Option<FolderChunk>)
    requires
        acc_entry_ok(*a, es, folder_subfolders(es, a.path@)),
    ensures
        match r {
            Some(ch) => folder_kept(es, code_chunks@, a.path@) && ch.folder_path@ == a.path@ && folder_chunk_spec(
                ch,
                es,
                code_chunks@,
                root_name@,
                crate::text::opt_str(project_name_override),
                embedding_model_version@,
            ),
            None => !folder_kept(es, code_chunks@, a.path@),
        },
{
    let ghost cs = code_chunks@;
    let all_types = folder_keys(code_chunks, &a.path, true);
    let all_fns = folder_keys(code_chunks, &a.path, false);
    let kt = take_first(&all_types, MAX_KEYS);
    let kf = take_first(&all_fns, MAX_KEYS);
    let ghost f = a.path@;
    proof {
        crate::sorted::lemma_sorted_no_dup(strings_view(all_types@));
        crate::sorted::lemma_sorted_no_dup(strings_view(all_fns@));
        crate::sorted::lemma_sorted_no_dup(strings_view(a.subfolders@));
        strings_view(all_types@).unique_seq_to_set();
        strings_view(all_fns@).unique_seq_to_set();
        strings_view(a.subfolders@).unique_seq_to_set();
    }
    let kept = !(a.file_count == 0 && a.subfolders.len() == 0 && kt.len() == 0 && kf.len() == 0);
    proof {
        let t_full = strings_view(all_types@);
        let f_full = strings_view(all_fns@);
        assert(strings_view(kt@).len() == kt@.len());
        assert(strings_view(kf@).len() == kf@.len());
        assert(strings_view(a.subfolders@).len() == a.subfolders@.len());
        assert((kt@.len() == 0) == (t_full.len() == 0));
        assert((kf@.len() == 0) == (f_full.len() == 0));
        assert(kept == folder_kept(es, cs, f)) by {
            if t_full.len() == 0 {
                assert(key_types(cs, f) =~= Set::<Seq<char>>::empty());
            }
            if f_full.len() == 0 {
                assert(key_functions(cs, f) =~= Set::<Seq<char>>::empty());
            }
            if a.subfolders@.len() == 0 {
                assert(strings_view(a.subfolders@).to_set() =~= Set::<Seq<char>>::empty());
            }
            if key_types(cs, f).is_empty() {
                assert(t_full.len() == 0) by {
                    if t_full.len() > 0 {
                        assert(t_full.to_set().contains(t_full[0]));
                    }
                }
            }
            if key_functions(cs, f).is_empty() {
                assert(f_full.len() == 0) by {
                    if f_full.len() > 0 {
                        assert(f_full.to_set().contains(f_full[0]));
                    }
                }
            }
            if folder_subfolders(es, f).is_empty() {
                assert(a.subfolders@.len() == 0) by {
                    if a.subfolders@.len() > 0 {
                        assert(strings_view(a.subfolders@).to_set().contains(strings_view(a.subfolders@)[0]));
                    }
                }
            }
        }
    }
    if !kept {
        return None;
    }
    let meta = FolderMeta {
        folder_path: a.path.as_str(),
        file_count: a.file_count,
        languages: a.languages.as_slice(),
        key_types: kt.as_slice(),
        key_functions: kf.as_slice(),
        subfolders: a.subfolders.as_slice(),
    };
    let summary_text = crate::folder::render_summary(&meta);
    let canonical = crate::folder::canonical_tuple(&meta);
    let chunk = FolderChunk {
        chunk_id: crate::types::deterministic_chunk_id(a.path.as_str(), summary_text.as_str()),
        content_hash: crate::types::content_hash(canonical.as_str()),
        folder_path: a.path.clone(),
        project_name: project_name_for_folder(a.path.as_str(), root_name, project_name_override),
        file_count: a.file_count,
        languages: copy_strings(&a.languages),
        key_types: kt,
        key_functions: kf,
        subfolders: copy_strings(&a.subfolders),
        summary_text,
        embedding_model_version: embedding_model_version.to_string(),
    };
    proof {
        let t_full = strings_view(all_types@);
        let f_full = strings_view(all_fns@);
        assert(smallest_sorted(strings_view(chunk.key_types@), key_types(cs, f), MAX_KEYS as nat)) by {
            assert(sorted_strict(t_full) && t_full.to_set() == key_types(cs, f));
        }
        assert(smallest_sorted(strings_view(chunk.key_functions@), key_functions(cs, f), MAX_KEYS as nat)) by {
            assert(sorted_strict(f_full) && f_full.to_set() == key_functions(cs, f));
        }
    }
    Some(chunk)
}

/// Build the folder chunks of a repository from its walk and its code
/// chunks: one per folder the walk names (or that is the parent of one),
/// sorted by path, skipping folders with no source files, subfolders or key
/// definitions. Languages and subfolders are listed sorted; key types and
/// functions are the public ones of files directly inside the folder,
/// sorted, at most `MAX_KEYS` each. `root_name` names the repository root
/// directory, and `embedding_model_version` is recorded on every chunk.
pub fn build_folder_chunks(
    entries: &[WalkEntry],
    code_chunks: &[CodeChunk],
    root_name: &str,
    project_name_override: Option<&str>,
    embedding_model_version: &str,
) -> (r: Vec<FolderChunk>)
    ensures
        folder_chunks_result(
            r@,
            entries@,
            code_chunks@,
            root_name@,
            crate::text::opt_str(project_name_override),
            embedding_model_version@,
        ),
{
    let ghost es = entries@;
    let ghost cs = code_chunks@;
    let mut acc = aggregate_walk(entries);
    link_dir_parents(&mut acc, Ghost(es));
    let ghost ap = acc_paths(acc@);
    let mut out: Vec<FolderChunk> = Vec::new();
    let mut j: usize = 0;
    while j < acc.len()
        invariant
            j <= acc.len(),
            es == entries@,
            cs == code_chunks@,
            ap == acc_paths(acc@),
            sorted_strict(ap),
            forall|f: Seq<char>| #[trigger] ap.contains(f) == is_folder(es, f),
            forall|k: int| 0 <= k < acc@.len() ==> acc_entry_ok(#[trigger] acc@[k], es, folder_subfolders(es, acc@[k].path@)),
            sorted_strict(chunk_paths(out@)),
            forall|o: int| 0 <= o < out@.len() ==> exists|w: int| 0 <= w < j && (#[trigger] chunk_paths(out@)[o]) == ap[w],
            forall|w: int| 0 <= w < j && folder_kept(es, cs, #[trigger] ap[w]) ==> chunk_paths(out@).contains(ap[w]),
            forall|o: int| 0 <= o < out@.len() ==> folder_kept(es, cs, #[trigger] chunk_paths(out@)[o]),
            forall|o: int| 0 <= o < out@.len() ==> folder_chunk_spec(
                #[trigger] out@[o],
                es,
                cs,
                root_name@,
                crate::text::opt_str(project_name_override),
                embedding_model_version@,
            ),
        decreases acc.len() - j,
    {
        assert(ap[j as int] == acc@[j as int].path@);
        let ghost before = out@;
        match folder_chunk_of(&acc[j], code_chunks, root_name, project_name_override, embedding_model_version, Ghost(es)) {
            Some(chunk) => {
                out.push(chunk);
                proof {
                    let cp = chunk_paths(out@);
                    assert(cp =~= chunk_paths(before).push(ap[j as int]));
                    assert forall|x: int, y: int| 0 <= x < y < cp.len() implies seq_lt(#[trigger] cp[x], #[trigger] cp[y]) by {
                        if y == cp.len() - 1 {
                            assert(cp[x] == chunk_paths(before)[x]);
                            let w = choose|w: int| 0 <= w < j && (#[trigger] chunk_paths(before)[x]) == ap[w];
                            assert(seq_lt(ap[w], ap[j as int]));
                        } else {
                            assert(cp[x] == chunk_paths(before)[x] && cp[y] == chunk_paths(before)[y]);
                        }
                    }
                    assert forall|o: int| 0 <= o < out@.len() implies exists|w: int| 0 <= w < j + 1 && (#[trigger] chunk_paths(out@)[o]) == ap[w] by {
                        if o < before.len() {
                            assert(cp[o] == chunk_paths(before)[o]);
                            let w = choose|w: int| 0 <= w < j && (#[trigger] chunk_paths(before)[o]) == ap[w];
                            assert(0 <= w < j + 1 && cp[o] == ap[w]);
                        } else {
                            assert(cp[o] == ap[j as int]);
                        }
                    }
                    assert forall|w: int| 0 <= w < j + 1 && folder_kept(es, cs, #[trigger] ap[w]) implies chunk_paths(out@).contains(ap[w]) by {
                        if w < j {
                            let o = choose|o: int| 0 <= o < chunk_paths(before).len() && chunk_paths(before)[o] == ap[w];
                            assert(cp[o] == ap[w]);
                        } else {
                            assert(cp[out@.len() - 1] == ap[w]);
                        }
                    }
                    assert forall|o: int| 0 <= o < out@.len() implies folder_kept(es, cs, #[trigger] chunk_paths(out@)[o]) by {
                        if o < before.len() {
                            assert(cp[o] == chunk_paths(before)[o]);
                        }
                    }
                    assert forall|o: int| 0 <= o < out@.len() implies folder_chunk_spec(
                        #[trigger] out@[o],
                        es,
                        cs,
                        root_name@,
                        crate::text::opt_str(project_name_override),
                        embedding_model_version@,
                    ) by {
                        if o < before.len() {
                            assert(out@[o] == before[o]);
                        }
                    }
                }
            },
            None => {
                proof {
                    assert forall|o: int| 0 <= o < out@.len() implies exists|w: int| 0 <= w < j + 1 && (#[trigger] chunk_paths(out@)[o]) == ap[w] by {
                        let w = choose|w: int| 0 <= w < j && (#[trigger] chunk_paths(out@)[o]) == ap[w];
                        assert(0 <= w < j + 1 && chunk_paths(out@)[o] == ap[w]);
                    }
                }
            },
        }
        j += 1;
    }
    proof {
        assert forall|f: Seq<char>| #[trigger] chunk_paths(out@).contains(f) == (is_folder(es, f) && folder_kept(es, cs, f)) by {
            if chunk_paths(out@).contains(f) {
                let o = choose|o: int| 0 <= o < chunk_paths(out@).len() && chunk_paths(out@)[o] == f;
                let w = choose|w: int| 0 <= w < j && (#[trigger] chunk_paths(out@)[o]) == ap[w];
                assert(ap.contains(ap[w]));
            }
            if is_folder(es, f) && folder_kept(es, cs, f) {
                assert(ap.contains(f));
                let w = choose|w: int| 0 <= w < ap.len() && ap[w] == f;
            }
        }
    }
    out
}

// ---------------------------------------------------------------------------
// The walk's order does not matter
// ---------------------------------------------------------------------------

/// Two folder chunks agree in every field.
pub open spec fn same_folder_chunk(a: FolderChunk, b: FolderChunk) -> bool {
    &&& a.folder_path@ == b.folder_path@
    &&& a.project_name@ == b.project_name@
    &&& a.file_count == b.file_count
    &&& strings_view(a.languages@) == strings_view(b.languages@)
    &&& strings_view(a.key_types@) == strings_view(b.key_types@)
    &&& strings_view(a.key_functions@) == strings_view(b.key_functions@)
    &&& strings_view(a.subfolders@) == strings_view(b.subfolders@)
    &&& a.summary_text@ == b.summary_text@
    &&& a.chunk_id@ == b.chunk_id@
    &&& a.content_hash@ == b.content_hash@
    &&& a.embedding_model_version@ == b.embedding_model_version@
}

proof fn lemma_perm_contains<A>(s1: Seq<A>, s2: Seq<A>, i: int) -> (j: int)
    requires
        s1.to_multiset() == s2.to_multiset(),
        0 <= i < s1.len(),
    ensures
        0 <= j < s2.len(),
        s2[j] == s1[i],
{
    broadcast use vstd::seq_lib::group_to_multiset_ensures;

    assert(s1.contains(s1[i]));
    assert(s1.to_multiset().count(s1[i]) > 0);
    assert(s2.contains(s1[i]));
    choose|j: int| 0 <= j < s2.len() && s2[j] == s1[i]
}

proof fn lemma_source_count_remove(s: Seq<WalkEntry>, i: int, f: Seq<char>)
    requires
        0 <= i < s.len(),
    ensures
        source_count(s, f) == source_count(s.remove(i), f) + if source_file_in(s[i], f) {
            1nat
        } else {
            0nat
        },
    decreases s.len(),
{
    if i == s.len() - 1 {
        assert(s.remove(i) =~= s.drop_last());
    } else {
        lemma_source_count_remove(s.drop_last(), i, f);
        assert(s.remove(i).drop_last() =~= s.drop_last().remove(i));
        assert(s.remove(i).last() == s.last());
        assert(s.drop_last()[i] == s[i]);
    }
}

proof fn lemma_source_count_perm(s1: Seq<WalkEntry>, s2: Seq<WalkEntry>, f: Seq<char>)
    requires
        s1.to_multiset() == s2.to_multiset(),
    ensures
        source_count(s1, f) == source_count(s2, f),
    decreases s1.len(),
{
    broadcast use vstd::seq_lib::group_to_multiset_ensures;

    if s1.len() == 0 {
        assert(s2.to_multiset().len() == 0);
    } else {
        let n = s1.len() - 1;
        let i = lemma_perm_contains(s1, s2, n);
        assert(s1.remove(n) =~= s1.drop_last());
        assert(s1.remove(n).to_multiset() == s1.to_multiset().remove(s1[n]));
        assert(s2.remove(i).to_multiset() == s2.to_multiset().remove(s2[i]));
        lemma_source_count_perm(s1.drop_last(), s2.remove(i), f);
        lemma_source_count_remove(s2, i, f);
        assert(s1.last() == s1[n]);
    }
}

/// Reordering the walk keeps every fact the chunks are built from.
proof fn lemma_walk_facts_perm(e1: Seq<WalkEntry>, e2: Seq<WalkEntry>)
    requires
        e1.to_multiset() == e2.to_multiset(),
    ensures
        forall|f: Seq<char>| #[trigger] walked_folder(e1, f) == walked_folder(e2, f),
        forall|f: Seq<char>| #[trigger] is_folder(e1, f) == is_folder(e2, f),
        forall|f: Seq<char>| #[trigger] walk_languages(e1, f) == walk_languages(e2, f),
        forall|f: Seq<char>| #[trigger] folder_subfolders(e1, f) == folder_subfolders(e2, f),
        forall|f: Seq<char>| #[trigger] source_count(e1, f) == source_count(e2, f),
{
    assert forall|a: Seq<WalkEntry>, b: Seq<WalkEntry>, f: Seq<char>|
        a.to_multiset() == b.to_multiset() && #[trigger] walked_folder(a, f) implies #[trigger] walked_folder(b, f) by {
        let i = choose|i: int| 0 <= i < a.len() && names_folder(#[trigger] a[i], f);
        let j = lemma_perm_contains(a, b, i);
        assert(names_folder(b[j], f));
    }
    assert forall|a: Seq<WalkEntry>, b: Seq<WalkEntry>, f: Seq<char>|
        a.to_multiset() == b.to_multiset() implies #[trigger] walk_languages(a, f) <= #[trigger] walk_languages(b, f) by {
        assert forall|l: Seq<char>| walk_languages(a, f).contains(l) implies walk_languages(b, f).contains(l) by {
            let i = choose|i: int| 0 <= i < a.len() && adds_language(#[trigger] a[i], f, l);
            let j = lemma_perm_contains(a, b, i);
            assert(adds_language(b[j], f, l));
        }
    }
    assert forall|a: Seq<WalkEntry>, b: Seq<WalkEntry>, f: Seq<char>|
        a.to_multiset() == b.to_multiset() implies #[trigger] walk_subfolders(a, f) <= #[trigger] walk_subfolders(b, f) by {
        assert forall|n: Seq<char>| walk_subfolders(a, f).contains(n) implies walk_subfolders(b, f).contains(n) by {
            let i = choose|i: int| 0 <= i < a.len() && adds_subfolder(#[trigger] a[i], f, n);
            let j = lemma_perm_contains(a, b, i);
            assert(adds_subfolder(b[j], f, n));
        }
    }
    assert forall|f: Seq<char>| #[trigger] walked_folder(e1, f) == walked_folder(e2, f) by {
        if walked_folder(e1, f) {
            assert(walked_folder(e2, f));
        }
        if walked_folder(e2, f) {
            assert(walked_folder(e1, f));
        }
    }
    assert forall|f: Seq<char>| #[trigger] is_folder(e1, f) == is_folder(e2, f) by {
        if is_folder(e1, f) && !walked_folder(e1, f) {
            let k = choose|k: Seq<char>| #[trigger] walked_folder(e1, k) && k.len() > 0 && dir_parent(k) == f;
            assert(walked_folder(e2, k));
        }
        if is_folder(e2, f) && !walked_folder(e2, f) {
            let k = choose|k: Seq<char>| #[trigger] walked_folder(e2, k) && k.len() > 0 && dir_parent(k) == f;
            assert(walked_folder(e1, k));
        }
    }
    assert forall|f: Seq<char>| #[trigger] walk_languages(e1, f) == walk_languages(e2, f) by {
        assert(walk_languages(e1, f) <= walk_languages(e2, f));
        assert(walk_languages(e2, f) <= walk_languages(e1, f));
        assert(walk_languages(e1, f) =~= walk_languages(e2, f));
    }
    assert forall|f: Seq<char>| #[trigger] folder_subfolders(e1, f) == folder_subfolders(e2, f) by {
        assert(walk_subfolders(e1, f) <= walk_subfolders(e2, f));
        assert(walk_subfolders(e2, f) <= walk_subfolders(e1, f));
        assert(walk_subfolders(e1, f) =~= walk_subfolders(e2, f));
        assert(dir_children(e1, f) =~= dir_children(e2, f)) by {
            assert forall|n: Seq<char>| dir_children(e1, f).contains(n) implies dir_children(e2, f).contains(n) by {
                let k = choose|k: Seq<char>|
                    #[trigger] walked_folder(e1, k) && k.len() > 0 && dir_parent(k) == f && dir_name(k) == n;
                assert(walked_folder(e2, k));
            }
            assert forall|n: Seq<char>| dir_children(e2, f).contains(n) implies dir_children(e1, f).contains(n) by {
                let k = choose|k: Seq<char>|
                    #[trigger] walked_folder(e2, k) && k.len() > 0 && dir_parent(k) == f && dir_name(k) == n;
                assert(walked_folder(e1, k));
            }
        }
    }
    assert forall|f: Seq<char>| #[trigger] source_count(e1, f) == source_count(e2, f) by {
        lemma_source_count_perm(e1, e2, f);
    }
}

/// Reordering the code chunks keeps each folder's key definitions.
proof fn lemma_key_sets_perm(c1: Seq<CodeChunk>, c2: Seq<CodeChunk>)
    requires
        c1.to_multiset() == c2.to_multiset(),
    ensures
        forall|f: Seq<char>| #[trigger] key_types(c1, f) == key_types(c2, f),
        forall|f: Seq<char>| #[trigger] key_functions(c1, f) == key_functions(c2, f),
{
    assert forall|a: Seq<CodeChunk>, b: Seq<CodeChunk>, f: Seq<char>|
        a.to_multiset() == b.to_multiset() implies #[trigger] key_types(a, f) <= #[trigger] key_types(b, f) by {
        assert forall|id: Seq<char>| key_types(a, f).contains(id) implies key_types(b, f).contains(id) by {
            let i = choose|i: int| 0 <= i < a.len() && key_type_in(#[trigger] a[i], f) && a[i].identifier@ == id;
            let j = lemma_perm_contains(a, b, i);
            assert(key_type_in(b[j], f) && b[j].identifier@ == id);
        }
    }
    assert forall|a: Seq<CodeChunk>, b: Seq<CodeChunk>, f: Seq<char>|
        a.to_multiset() == b.to_multiset() implies #[trigger] key_functions(a, f) <= #[trigger] key_functions(b, f) by {
        assert forall|id: Seq<char>| key_functions(a, f).contains(id) implies key_functions(b, f).contains(id) by {
            let i = choose|i: int| 0 <= i < a.len() && key_function_in(#[trigger] a[i], f) && a[i].identifier@ == id;
            let j = lemma_perm_contains(a, b, i);
            assert(key_function_in(b[j], f) && b[j].identifier@ == id);
        }
    }
    assert forall|f: Seq<char>| #[trigger] key_types(c1, f) == key_types(c2, f) by {
        assert(key_types(c1, f) <= key_types(c2, f));
        assert(key_types(c2, f) <= key_types(c1, f));
        assert(key_types(c1, f) =~= key_types(c2, f));
    }
    assert forall|f: Seq<char>| #[trigger] key_functions(c1, f) == key_functions(c2, f) by {
        assert(key_functions(c1, f) <= key_functions(c2, f));
        assert(key_functions(c2, f) <= key_functions(c1, f));
        assert(key_functions(c1, f) =~= key_functions(c2, f));
    }
}

proof fn lemma_smallest_sorted_unique(t1: Seq<Seq<char>>, t2: Seq<Seq<char>>, s: Set<Seq<char>>, k: nat)
    requires
        smallest_sorted(t1, s, k),
        smallest_sorted(t2, s, k),
    ensures
        t1 == t2,
{
    let f1 = choose|full: Seq<Seq<char>>|
        #[trigger] sorted_strict(full) && full.to_set() == s && t1 == full.take(
            if full.len() < k {
                full.len() as int
            } else {
                k as int
            },
        );
    let f2 = choose|full: Seq<Seq<char>>|
        #[trigger] sorted_strict(full) && full.to_set() == s && t2 == full.take(
            if full.len() < k {
                full.len() as int
            } else {
                k as int
            },
        );
    lemma_sorted_unique(f1, f2);
}

/// Folder chunks do not depend on the order in which the walk reports its
/// entries, nor on the order of the code chunks: for walks that are
/// reorderings of each other and code chunks that are reorderings of each
/// other, the chunk lists agree position by position in every field.
pub proof fn lemma_folder_chunks_order_independent(
    r1: Seq<FolderChunk>,
    r2: Seq<FolderChunk>,
    e1: Seq<WalkEntry>,
    e2: Seq<WalkEntry>,
    c1: Seq<CodeChunk>,
    c2: Seq<CodeChunk>,
    root_name: Seq<char>,
    cli_override: Option<Seq<char>>,
    model: Seq<char>,
)
    requires
        e1.to_multiset() == e2.to_multiset(),
        c1.to_multiset() == c2.to_multiset(),
        folder_chunks_result(r1, e1, c1, root_name, cli_override, model),
        folder_chunks_result(r2, e2, c2, root_name, cli_override, model),
    ensures
        r1.len() == r2.len(),
        forall|j: int| 0 <= j < r1.len() ==> same_folder_chunk(#[trigger] r1[j], r2[j]),
{
    lemma_walk_facts_perm(e1, e2);
    lemma_key_sets_perm(c1, c2);
    let p1 = chunk_paths(r1);
    let p2 = chunk_paths(r2);
    assert(p1.to_set() =~= p2.to_set()) by {
        assert forall|f: Seq<char>| p1.to_set().contains(f) == p2.to_set().contains(f) by {
            assert(p1.contains(f) == (is_folder(e1, f) && folder_kept(e1, c1, f)));
            assert(p2.contains(f) == (is_folder(e2, f) && folder_kept(e2, c2, f)));
            assert(folder_kept(e1, c1, f) == folder_kept(e2, c2, f));
        }
    }
    lemma_sorted_unique(p1, p2);
    assert(r1.len() == p1.len() && r2.len() == p2.len());
    assert forall|j: int| 0 <= j < r1.len() implies same_folder_chunk(#[trigger] r1[j], r2[j]) by {
        let a = r1[j];
        let b = r2[j];
        assert(p1[j] == a.folder_path@ && p2[j] == b.folder_path@);
        let f = a.folder_path@;
        assert(folder_chunk_spec(a, e1, c1, root_name, cli_override, model));
        assert(folder_chunk_spec(b, e2, c2, root_name, cli_override, model));
        lemma_sorted_unique(strings_view(a.languages@), strings_view(b.languages@));
        lemma_sorted_unique(strings_view(a.subfolders@), strings_view(b.subfolders@));
        lemma_smallest_sorted_unique(strings_view(a.key_types@), strings_view(b.key_types@), key_types(c1, f), MAX_KEYS as nat);
        lemma_smallest_sorted_unique(
            strings_view(a.key_functions@),
            strings_view(b.key_functions@),
            key_functions(c1, f),
            MAX_KEYS as nat,
        );
    }
}

} // verus!
