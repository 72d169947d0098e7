//! Verified core of a code-retrieval system: chunk records and content
//! hashes, text tokenization, folder and file summaries, the call graph and
//! its query-time augmentation, import-path matching and edge resolution.
use vstd::prelude::*;

pub mod api;
pub mod auth;
pub mod augment;
pub mod config;
pub mod edge_laws;
pub mod edges;
pub mod embedder;
pub mod errors;
pub mod file;
pub mod folder;
pub mod folder_ingest;
pub mod folder_laws;
pub mod graph;
pub mod graph_laws;
pub mod handler;
pub mod import_match;
pub mod intent;
pub mod mermaid;
pub mod language;
pub mod python;
pub mod query_laws;
pub mod retrieval;
pub mod rust;
pub mod schema;
pub mod setup;
pub mod sorted;
pub mod source_window;
pub mod syntax;
pub mod store_query;
pub mod tool_params;
pub mod stored_graph;
pub mod strings;
pub mod text;
pub mod topology;
pub mod types;
pub mod unicode;
pub mod viz;

verus! {

} // verus!
