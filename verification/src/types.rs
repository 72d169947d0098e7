//! Chunk and edge records shared by ingestion, storage and retrieval, and
//! the content hashes and ids that key them.
use vstd::prelude::*;
use sha2::{Digest, Sha256};
use crate::strings::{
    chars_of, concat, extend, extend_str, lemma_join_split, lemma_split_join, lemma_split_pieces_avoid, replace, replace_vec,
    split_on, string_of,
};

verus! {

/// Bump when the chunk-derivation pipeline changes in a way that affects
/// columns persisted alongside `CodeChunk` but not the raw code: it is mixed
/// into the per-file hash so such a change forces re-ingestion.
pub const DERIVATION_VERSION: &'static str = "v1";

/// What the SHA-256 digest of the UTF-8 encoding of a text is.
pub uninterp spec fn sha256_utf8(s: Seq<char>) -> Seq<u8>;

/// `sha2::Sha256::digest` over the UTF-8 bytes of `s`: the result is the
/// named digest, 32 bytes long (Sha256's output size).
#[verifier::external_body]
fn sha256_digest(s: &str) -> (r: Vec<u8>)
    ensures
        r@ == sha256_utf8(s@),
        r@.len() == 32,
{
    Sha256::digest(s.as_bytes()).to_vec()
}

pub open spec fn hex_digit(d: u8) -> char {
    if d < 10 {
        ((d as u32) + 48) as char
    } else {
        ((d as u32) + 87) as char
    }
}

/// Lowercase hexadecimal rendering, two digits per byte (as `{:x}` formats
/// a digest).
pub open spec fn hex_lower(b: Seq<u8>) -> Seq<char>
    decreases b.len(),
{
    if b.len() == 0 {
        seq![]
    } else {
        hex_lower(b.drop_last()) + seq![hex_digit(b.last() / 16), hex_digit(b.last() % 16)]
    }
}

proof fn lemma_hex_len(b: Seq<u8>)
    ensures
        hex_lower(b).len() == 2 * b.len(),
    decreases b.len(),
{
    if b.len() > 0 {
        lemma_hex_len(b.drop_last());
    }
}

fn hex_digit_of(d: u8) -> (c: char)
    requires
        d < 16,
    ensures
        c == hex_digit(d),
{
    if d == 0 { '0' } else if d == 1 { '1' } else if d == 2 { '2' } else if d == 3 { '3' }
    else if d == 4 { '4' } else if d == 5 { '5' } else if d == 6 { '6' } else if d == 7 { '7' }
    else if d == 8 { '8' } else if d == 9 { '9' } else if d == 10 { 'a' } else if d == 11 { 'b' }
    else if d == 12 { 'c' } else if d == 13 { 'd' } else if d == 14 { 'e' } else { 'f' }
}

fn hex_of(b: &Vec<u8>) -> (r: Vec<char>)
    ensures
        r@ == hex_lower(b@),
{
    let mut r: Vec<char> = Vec::new();
    let mut i: usize = 0;
    while i < b.len()
        invariant
            i <= b.len(),
            r@ == hex_lower(b@.take(i as int)),
        decreases b.len() - i,
    {
        assert(b@.take(i + 1).drop_last() == b@.take(i as int));
        let x = b[i];
        r.push(hex_digit_of(x / 16));
        r.push(hex_digit_of(x % 16));
        assert(r@ =~= hex_lower(b@.take(i + 1)));
        i += 1;
    }
    assert(b@.take(b.len() as int) == b@);
    r
}

/// `s` with every CRLF turned into LF.
pub open spec fn normalize_crlf(s: Seq<char>) -> Seq<char> {
    replace(s, seq!['\r', '\n'], seq!['\n'])
}

/// The content hash of a text: the lowercase hex SHA-256 of its CRLF-normalized form.
pub open spec fn content_hash_of(s: Seq<char>) -> Seq<char> {
    hex_lower(sha256_utf8(normalize_crlf(s)))
}

/// `s` with every LF written as CRLF, as a Windows checkout stores it.
pub open spec fn with_crlf(s: Seq<char>) -> Seq<char> {
    replace(s, seq!['\n'], seq!['\r', '\n'])
}

/// CRLF normalization undoes writing LF as CRLF: a text without carriage
/// returns has the same content hash, and the same file hash, whether its
/// lines end in LF or in CRLF.
pub proof fn lemma_hash_ignores_crlf(s: Seq<char>, chunks: Seq<(Option<Seq<char>>, Option<Seq<char>>)>)
    requires
        !s.contains('\r'),
    ensures
        normalize_crlf(with_crlf(s)) == s,
        normalize_crlf(s) == s,
        content_hash_of(with_crlf(s)) == content_hash_of(s),
        file_hash_text(with_crlf(s), chunks) == file_hash_text(s, chunks),
{
    let lf = seq!['\n'];
    let crlf = seq!['\r', '\n'];
    let parts = split_on(s, lf);
    lemma_split_pieces_avoid(s, lf, '\r');
    crate::strings::lemma_split_on_nonempty(s, lf);
    lemma_split_join(parts, crlf);
    lemma_join_split(s, lf);
    assert(normalize_crlf(s) == s) by {
        lemma_split_pieces_avoid(s, crlf, '\r');
        let ps = split_on(s, crlf);
        crate::strings::lemma_split_on_nonempty(s, crlf);
        lemma_join_split(s, crlf);
        assert(ps.len() == 1) by {
            crate::strings::lemma_find(s, crlf);
            if crate::strings::find(s, crlf) is Some {
                let k = crate::strings::find(s, crlf)->0;
                assert(s.subrange(k, k + 2)[0] == '\r');
                assert(s[k] == '\r');
            }
        }
        assert(crate::strings::join(ps, lf) == ps[0]);
        assert(crate::strings::join(ps, crlf) == ps[0]);
    }
}

fn crlf() -> (r: Vec<char>)
    ensures
        r@ == seq!['\r', '\n'],
{
    let mut r = Vec::new();
    r.push('\r');
    r.push('\n');
    r
}

fn lf() -> (r: Vec<char>)
    ensures
        r@ == seq!['\n'],
{
    let mut r = Vec::new();
    r.push('\n');
    r
}

fn hex_sha256(s: &Vec<char>) -> (r: String)
    ensures
        r@ == hex_lower(sha256_utf8(s@)),
        r@.len() == 64,
{
    let st = string_of(s);
    let d = sha256_digest(st.as_str());
    proof {
        lemma_hex_len(d@);
    }
    string_of(&hex_of(&d))
}

/// SHA-256 of `content` as 64 lowercase hex digits, after normalizing CRLF
/// to LF so the same text hashes alike on every OS.
pub fn content_hash(content: &str) -> (r: String)
    ensures
        r@ == content_hash_of(content@),
        r@.len() == 64,
{
    let c = chars_of(content);
    let n = replace_vec(&c, &crlf(), &lf());
    hex_sha256(&n)
}

/// The text hashed for a deterministic chunk id.
pub open spec fn chunk_id_text(file_path: Seq<char>, content: Seq<char>) -> Seq<char> {
    "chunk:"@ + file_path + ":"@ + content
}

/// A chunk's deterministic id does not depend on whether its content's
/// lines end in LF or in CRLF.
pub proof fn lemma_chunk_id_ignores_crlf(file_path: Seq<char>, content: Seq<char>)
    requires
        !content.contains('\r'),
    ensures
        content_hash_of(chunk_id_text(file_path, with_crlf(content))) == content_hash_of(
            chunk_id_text(file_path, content),
        ),
{
    lemma_hash_ignores_crlf(content, seq![]);
    reveal_strlit("chunk:");
    reveal_strlit(":");
    let x = "chunk:"@ + file_path + ":"@;
    assert(x.last() == ':');
    crate::strings::lemma_replace_crlf_concat(x, with_crlf(content), seq!['\n']);
    crate::strings::lemma_replace_crlf_concat(x, content, seq!['\n']);
    assert(chunk_id_text(file_path, content) =~= x + content);
    assert(chunk_id_text(file_path, with_crlf(content)) =~= x + with_crlf(content));
}

/// Deterministic chunk id from file path and content: the same definition
/// in the same file gets the same id across re-indexing runs.
pub fn deterministic_chunk_id(file_path: &str, content: &str) -> (r: String)
    ensures
        r@ == content_hash_of(chunk_id_text(file_path@, content@)),
{
    let mut t: Vec<char> = Vec::new();
    extend_str(&mut t, "chunk:");
    extend_str(&mut t, file_path);
    extend_str(&mut t, ":");
    extend_str(&mut t, content);
    let s = string_of(&t);
    content_hash(s.as_str())
}

/// Fingerprint text of one chunk's signature and docstring.
pub open spec fn chunk_fingerprint(sig: Option<Seq<char>>, doc: Option<Seq<char>>) -> Seq<char> {
    ":sig:"@ + (match sig { Some(s) => s, None => seq![] }) + ":doc:"@ + (match doc {
        Some(d) => d,
        None => seq![],
    })
}

pub open spec fn fingerprints(chunks: Seq<(Option<Seq<char>>, Option<Seq<char>>)>) -> Seq<char>
    decreases chunks.len(),
{
    if chunks.len() == 0 {
        seq![]
    } else {
        fingerprints(chunks.drop_last()) + chunk_fingerprint(chunks.last().0, chunks.last().1)
    }
}

/// The byte stream hashed for a file's code chunks.
pub open spec fn file_hash_text(
    file_content: Seq<char>,
    chunks: Seq<(Option<Seq<char>>, Option<Seq<char>>)>,
) -> Seq<char> {
    "derivation:"@ + DERIVATION_VERSION@ + ":src:"@ + normalize_crlf(file_content)
        + fingerprints(chunks)
}

pub open spec fn opt_view(o: Option<String>) -> Option<Seq<char>> {
    match o {
        Some(s) => Some(s@),
        None => None,
    }
}

/// File-level hash for code chunks: the derivation version, the
/// CRLF-normalized source and each chunk's signature and docstring, in the
/// order given. Changes whenever any of them changes.
pub fn code_chunk_file_hash(file_content: &str, chunks: &Vec<(Option<String>, Option<String>)>) -> (r: String)
    ensures
        r@ == hex_lower(sha256_utf8(file_hash_text(
            file_content@,
            chunks@.map_values(|p: (Option<String>, Option<String>)| (opt_view(p.0), opt_view(p.1))),
        ))),
{
    let ghost cs = chunks@.map_values(|p: (Option<String>, Option<String>)| (opt_view(p.0), opt_view(p.1)));
    let mut t: Vec<char> = Vec::new();
    extend_str(&mut t, "derivation:");
    extend_str(&mut t, DERIVATION_VERSION);
    extend_str(&mut t, ":src:");
    let c = chars_of(file_content);
    let n = replace_vec(&c, &crlf(), &lf());
    extend(&mut t, &n);
    let ghost head = t@;
    let mut i: usize = 0;
    while i < chunks.len()
        invariant
            i <= chunks.len(),
            cs == chunks@.map_values(|p: (Option<String>, Option<String>)| (opt_view(p.0), opt_view(p.1))),
            t@ == head + fingerprints(cs.take(i as int)),
        decreases chunks.len() - i,
    {
        assert(cs.take(i + 1).drop_last() == cs.take(i as int));
        extend_str(&mut t, ":sig:");
        match &chunks[i].0 {
            Some(s) => extend_str(&mut t, s.as_str()),
            None => {},
        }
        extend_str(&mut t, ":doc:");
        match &chunks[i].1 {
            Some(d) => extend_str(&mut t, d.as_str()),
            None => {},
        }
        assert(t@ =~= head + fingerprints(cs.take(i + 1)));
        i += 1;
    }
    assert(cs.take(chunks.len() as int) == cs);
    hex_sha256(&t)
}

/// A lowercase hexadecimal digit.
pub open spec fn lower_hex(c: char) -> bool {
    ('0' <= c && c <= '9') || ('a' <= c && c <= 'f')
}

/// The hyphenated lowercase form of a random (version 4, RFC 4122 variant)
/// UUID: 8-4-4-4-12 lowercase hex digits, the version digit `4` and a
/// variant digit of `8`, `9`, `a` or `b`.
pub open spec fn uuid_shape(s: Seq<char>) -> bool {
    &&& s.len() == 36
    &&& forall|i: int| 0 <= i < 36 ==> (s[i] == '-' <==> (i == 8 || i == 13 || i == 18 || i == 23))
    &&& forall|i: int| 0 <= i < 36 && !(i == 8 || i == 13 || i == 18 || i == 23) ==> lower_hex(#[trigger] s[i])
    &&& s[14] == '4'
    &&& (s[19] == '8' || s[19] == '9' || s[19] == 'a' || s[19] == 'b')
}

/// `uuid::Uuid::new_v4().to_string()`: a fresh random id. Whatever it is,
/// `Display` writes it hyphenated in lowercase hex, and `new_v4` fixes the
/// version nibble to 4 and the variant bits to `10`, so it has
/// `uuid_shape`; the other digits are random and not stated.
#[verifier::external_body]
pub fn new_chunk_id() -> (r: String)
    ensures
        uuid_shape(r@),
{
    uuid::Uuid::new_v4().to_string()
}

/// A code definition (function, type, ...) extracted from a source file.
#[derive(Debug, Clone)]
pub struct CodeChunk {
    pub file_path: String,
    /// "rust", "python", ...
    pub language: String,
    /// Function or type name.
    pub identifier: String,
    /// Grammar node kind, e.g. "function_item".
    pub node_type: String,
    /// The source text of the definition.
    pub code_content: String,
    pub start_line: usize,
    pub project_name: String,
    pub docstring: Option<String>,
    /// Declaration signature, when one was extracted.
    pub signature: Option<String>,
    /// Deterministic id: hash of file path and content.
    pub chunk_id: String,
    /// Hash of the source file.
    pub content_hash: String,
    pub embedding_model_version: String,
}

/// The value of a code chunk.
pub struct CodeChunkView {
    pub file_path: Seq<char>,
    pub language: Seq<char>,
    pub identifier: Seq<char>,
    pub node_type: Seq<char>,
    pub code_content: Seq<char>,
    pub start_line: usize,
    pub project_name: Seq<char>,
    pub docstring: Option<Seq<char>>,
    pub signature: Option<Seq<char>>,
    pub chunk_id: Seq<char>,
    pub content_hash: Seq<char>,
    pub embedding_model_version: Seq<char>,
}

impl View for CodeChunk {
    type V = CodeChunkView;

    open spec fn view(&self) -> CodeChunkView {
        CodeChunkView {
            file_path: self.file_path@,
            language: self.language@,
            identifier: self.identifier@,
            node_type: self.node_type@,
            code_content: self.code_content@,
            start_line: self.start_line,
            project_name: self.project_name@,
            docstring: opt_view(self.docstring),
            signature: opt_view(self.signature),
            chunk_id: self.chunk_id@,
            content_hash: self.content_hash@,
            embedding_model_version: self.embedding_model_version@,
        }
    }
}

/// A README file.
#[derive(Debug, Clone)]
pub struct ReadmeChunk {
    pub file_path: String,
    pub project_name: String,
    pub content: String,
    pub chunk_id: String,
    pub content_hash: String,
    pub embedding_model_version: String,
}

/// A crate described by its manifest.
#[derive(Debug, Clone)]
pub struct CrateChunk {
    pub crate_name: String,
    pub crate_path: String,
    pub description: Option<String>,
    pub dependencies: Vec<String>,
    pub project_name: String,
    pub chunk_id: String,
    pub content_hash: String,
    pub embedding_model_version: String,
}

/// A directed call edge, caller to callee.
#[derive(Debug, Clone)]
pub struct CallEdge {
    pub edge_id: String,
    pub caller_chunk_id: String,
    pub callee_chunk_id: String,
    pub caller_identifier: String,
    pub callee_identifier: String,
    pub caller_file: String,
    pub callee_file: String,
    pub project_name: String,
    /// 1 = same file, 2 = import-based, 3 = unique within the project.
    pub resolution_tier: u8,
}

/// The value of a call edge.
pub struct CallEdgeView {
    pub edge_id: Seq<char>,
    pub caller_chunk_id: Seq<char>,
    pub callee_chunk_id: Seq<char>,
    pub caller_identifier: Seq<char>,
    pub callee_identifier: Seq<char>,
    pub caller_file: Seq<char>,
    pub callee_file: Seq<char>,
    pub project_name: Seq<char>,
    pub resolution_tier: u8,
}

impl View for CallEdge {
    type V = CallEdgeView;

    open spec fn view(&self) -> CallEdgeView {
        CallEdgeView {
            edge_id: self.edge_id@,
            caller_chunk_id: self.caller_chunk_id@,
            callee_chunk_id: self.callee_chunk_id@,
            caller_identifier: self.caller_identifier@,
            callee_identifier: self.callee_identifier@,
            caller_file: self.caller_file@,
            callee_file: self.callee_file@,
            project_name: self.project_name@,
            resolution_tier: self.resolution_tier,
        }
    }
}

/// A compact call edge for export.
#[derive(Debug, Clone)]
pub struct ExportEdge {
    pub caller: String,
    pub callee: String,
    pub tier: u8,
}

/// Module-level documentation.
#[derive(Debug, Clone)]
pub struct ModuleDocChunk {
    pub file_path: String,
    pub module_name: String,
    pub doc_content: String,
    pub project_name: String,
    pub chunk_id: String,
    pub content_hash: String,
    pub embedding_model_version: String,
}

/// A folder-level summary chunk.
#[derive(Debug, Clone)]
pub struct FolderChunk {
    pub folder_path: String,
    pub project_name: String,
    pub file_count: usize,
    pub languages: Vec<String>,
    pub key_types: Vec<String>,
    pub key_functions: Vec<String>,
    pub subfolders: Vec<String>,
    pub summary_text: String,
    pub chunk_id: String,
    pub content_hash: String,
    pub embedding_model_version: String,
}

/// The identifying fields of a folder chunk.
pub struct FolderChunkView {
    pub folder_path: Seq<char>,
    pub project_name: Seq<char>,
    pub chunk_id: Seq<char>,
}

impl View for FolderChunk {
    type V = FolderChunkView;

    open spec fn view(&self) -> FolderChunkView {
        FolderChunkView {
            folder_path: self.folder_path@,
            project_name: self.project_name@,
            chunk_id: self.chunk_id@,
        }
    }
}

/// A file-level summary chunk.
#[derive(Debug, Clone)]
pub struct FileChunk {
    pub file_path: String,
    pub project_name: String,
    pub language: String,
    pub exports: Vec<String>,
    pub imports: Vec<String>,
    pub purpose: Option<String>,
    pub summary_text: String,
    pub chunk_id: String,
    pub content_hash: String,
    pub embedding_model_version: String,
}

/// The identifying fields of a file chunk.
pub struct FileChunkView {
    pub file_path: Seq<char>,
    pub project_name: Seq<char>,
    pub chunk_id: Seq<char>,
}

impl View for FileChunk {
    type V = FileChunkView;

    open spec fn view(&self) -> FileChunkView {
        FileChunkView {
            file_path: self.file_path@,
            project_name: self.project_name@,
            chunk_id: self.chunk_id@,
        }
    }
}

/// Kind of a structural relation between two chunks.
#[derive(Debug, Clone, Copy, PartialEq, Eq, Structural)]
pub enum EdgeRelation {
    Calls,
    Contains,
    Imports,
    ReExports,
    Implements,
    Extends,
    Embeds,
    References,
}

/// Where a `References` relation occurs.
#[derive(Debug, Clone, Copy, PartialEq, Eq, Structural)]
pub enum EdgeContext {
    Unspecified,
    Param,
    ReturnType,
    Field,
    GenericArg,
}

/// How an edge's target was determined.
#[derive(Debug, Clone, Copy, PartialEq, Eq, Structural)]
pub enum EdgeConfidence {
    /// Read off the source (same file, or an import names it).
    Extracted,
    /// Chosen because it is the only candidate in the project.
    Inferred,
}

pub open spec fn relation_name(r: EdgeRelation) -> Seq<char> {
    match r {
        EdgeRelation::Calls => "calls"@,
        EdgeRelation::Contains => "contains"@,
        EdgeRelation::Imports => "imports"@,
        EdgeRelation::ReExports => "re_exports"@,
        EdgeRelation::Implements => "implements"@,
        EdgeRelation::Extends => "extends"@,
        EdgeRelation::Embeds => "embeds"@,
        EdgeRelation::References => "references"@,
    }
}

pub open spec fn context_name(c: EdgeContext) -> Seq<char> {
    match c {
        EdgeContext::Unspecified => "none"@,
        EdgeContext::Param => "param"@,
        EdgeContext::ReturnType => "return_type"@,
        EdgeContext::Field => "field"@,
        EdgeContext::GenericArg => "generic_arg"@,
    }
}

impl EdgeRelation {
    pub fn name(&self) -> (r: &'static str)
        ensures
            r@ == relation_name(*self),
    {
        match self {
            EdgeRelation::Calls => "calls",
            EdgeRelation::Contains => "contains",
            EdgeRelation::Imports => "imports",
            EdgeRelation::ReExports => "re_exports",
            EdgeRelation::Implements => "implements",
            EdgeRelation::Extends => "extends",
            EdgeRelation::Embeds => "embeds",
            EdgeRelation::References => "references",
        }
    }
}

impl EdgeContext {
    pub fn name(&self) -> (r: &'static str)
        ensures
            r@ == context_name(*self),
    {
        match self {
            EdgeContext::Unspecified => "none",
            EdgeContext::Param => "param",
            EdgeContext::ReturnType => "return_type",
            EdgeContext::Field => "field",
            EdgeContext::GenericArg => "generic_arg",
        }
    }
}

/// A typed edge of the relation graph.
#[derive(Debug, Clone)]
pub struct GraphEdge {
    pub edge_id: String,
    pub source_chunk_id: String,
    pub target_chunk_id: String,
    pub source_identifier: String,
    pub target_identifier: String,
    pub source_file: String,
    pub target_file: String,
    pub project_name: String,
    pub relation: EdgeRelation,
    pub context: EdgeContext,
    pub confidence: EdgeConfidence,
}

/// The value of a graph edge.
pub struct GraphEdgeView {
    pub edge_id: Seq<char>,
    pub source_chunk_id: Seq<char>,
    pub target_chunk_id: Seq<char>,
    pub source_identifier: Seq<char>,
    pub target_identifier: Seq<char>,
    pub source_file: Seq<char>,
    pub target_file: Seq<char>,
    pub project_name: Seq<char>,
    pub relation: EdgeRelation,
    pub context: EdgeContext,
    pub confidence: EdgeConfidence,
}

impl View for GraphEdge {
    type V = GraphEdgeView;

    open spec fn view(&self) -> GraphEdgeView {
        GraphEdgeView {
            edge_id: self.edge_id@,
            source_chunk_id: self.source_chunk_id@,
            target_chunk_id: self.target_chunk_id@,
            source_identifier: self.source_identifier@,
            target_identifier: self.target_identifier@,
            source_file: self.source_file@,
            target_file: self.target_file@,
            project_name: self.project_name@,
            relation: self.relation,
            context: self.context,
            confidence: self.confidence,
        }
    }
}

/// The text hashed for a graph edge id.
pub open spec fn edge_id_text(
    source: Seq<char>,
    target: Seq<char>,
    relation: EdgeRelation,
    context: EdgeContext,
) -> Seq<char> {
    "edge:"@ + source + ":"@ + target + ":"@ + relation_name(relation) + ":"@ + context_name(
        context,
    )
}

impl GraphEdge {
    /// Deterministic edge id from its endpoints, relation and context.
    pub fn deterministic_edge_id(
        source: &str,
        target: &str,
        relation: EdgeRelation,
        context: EdgeContext,
    ) -> (r: String)
        ensures
            r@ == content_hash_of(edge_id_text(source@, target@, relation, context)),
    {
        let mut t: Vec<char> = Vec::new();
        extend_str(&mut t, "edge:");
        extend_str(&mut t, source);
        extend_str(&mut t, ":");
        extend_str(&mut t, target);
        extend_str(&mut t, ":");
        extend_str(&mut t, relation.name());
        extend_str(&mut t, ":");
        extend_str(&mut t, context.name());
        let s = string_of(&t);
        content_hash(s.as_str())
    }
}

/// The text hashed for a call edge id.
pub open spec fn call_edge_id_text(caller: Seq<char>, callee: Seq<char>) -> Seq<char> {
    "edge:"@ + caller + ":"@ + callee
}

/// Deterministic call-edge id: the hash of `edge:{caller}:{callee}`.
pub fn call_edge_id(caller: &str, callee: &str) -> (r: String)
    ensures
        r@ == content_hash_of(call_edge_id_text(caller@, callee@)),
{
    let mut t: Vec<char> = Vec::new();
    extend_str(&mut t, "edge:");
    extend_str(&mut t, caller);
    extend_str(&mut t, ":");
    extend_str(&mut t, callee);
    let s = string_of(&t);
    content_hash(s.as_str())
}

} // verus!
