//! What a folder chunk lists as the folder's key types.
use vstd::prelude::*;
use crate::folder::{MAX_KEYS, public_spec};
use crate::folder_ingest::{WalkEntry, folder_chunk_spec, key_types, parent_folder_spec};
use crate::sorted::{lemma_sorted_no_dup, sorted_strict};
use crate::strings::strings_view;
use crate::types::{CodeChunk, FolderChunk, opt_view};

verus! {

/// The node kinds that define a type: Rust structs, enums and traits,
/// Python classes, and TypeScript classes, interfaces, type aliases and
/// enums.
pub open spec fn defines_type(kind: Seq<char>) -> bool {
    ||| kind == "struct_item"@
    ||| kind == "enum_item"@
    ||| kind == "trait_item"@
    ||| kind == "class_definition"@
    ||| kind == "class_declaration"@
    ||| kind == "interface_declaration"@
    ||| kind == "type_alias_declaration"@
    ||| kind == "enum_declaration"@
}

/// A public type defined in a file directly inside a folder is one of the
/// folder's key types, and the folder chunk lists it whenever the folder
/// has no more key types than a chunk lists.
pub proof fn lemma_public_types_are_key_types(
    ch: FolderChunk,
    es: Seq<WalkEntry>,
    chunks: Seq<CodeChunk>,
    root_name: Seq<char>,
    cli_override: Option<Seq<char>>,
    model: Seq<char>,
    i: int,
)
    requires
        folder_chunk_spec(ch, es, chunks, root_name, cli_override, model),
        0 <= i < chunks.len(),
        parent_folder_spec(chunks[i].file_path@) == Some(ch.folder_path@),
        public_spec(chunks[i].language@, opt_view(chunks[i].signature), chunks[i].identifier@),
        defines_type(chunks[i].node_type@),
    ensures
        key_types(chunks, ch.folder_path@).contains(chunks[i].identifier@),
        key_types(chunks, ch.folder_path@).len() <= MAX_KEYS ==> strings_view(ch.key_types@).contains(
            chunks[i].identifier@,
        ),
{
    let f = ch.folder_path@;
    let s = key_types(chunks, f);
    let id = chunks[i].identifier@;
    assert(s.contains(id));
    let kt = strings_view(ch.key_types@);
    let full = choose|full: Seq<Seq<char>>|
        #[trigger] sorted_strict(full) && full.to_set() == s && kt == full.take(
            if full.len() < MAX_KEYS as nat {
                full.len() as int
            } else {
                MAX_KEYS as int
            },
        );
    if s.len() <= MAX_KEYS {
        lemma_sorted_no_dup(full);
        full.unique_seq_to_set();
        assert(full.len() <= MAX_KEYS);
        assert(kt =~= full);
        assert(full.to_set().contains(id));
    }
}

/// Conversely, every key type of a folder is the identifier of a public
/// type defined in a file directly inside it.
pub proof fn lemma_key_types_are_public_types(chunks: Seq<CodeChunk>, f: Seq<char>, id: Seq<char>)
    requires
        key_types(chunks, f).contains(id),
    ensures
        exists|i: int|
            0 <= i < chunks.len() && (#[trigger] chunks[i]).identifier@ == id && parent_folder_spec(chunks[i].file_path@)
                == Some(f) && public_spec(chunks[i].language@, opt_view(chunks[i].signature), chunks[i].identifier@)
                && defines_type(chunks[i].node_type@),
{
}

} // verus!
