//! Errors of the reranker, the language-model seam and the retrieval
//! orchestrator, each with its human-readable message.
use vstd::prelude::*;
use crate::embedder::EmbedError;
use crate::strings::{extend_str, string_of};

verus! {

/// Language-model seam error.
#[derive(Debug, Clone, PartialEq)]
pub enum LlmError {
    Generation(String),
}

impl LlmError {
    pub open spec fn message_spec(&self) -> Seq<char> {
        match self {
            LlmError::Generation(s) => "LLM generation failed: "@ + s@,
        }
    }

    /// The error's human-readable message.
    pub fn message(&self) -> (r: String)
        ensures
            r@ == self.message_spec(),
    {
        let mut out: Vec<char> = Vec::new();
        match self {
            LlmError::Generation(s) => {
                extend_str(&mut out, "LLM generation failed: ");
                extend_str(&mut out, s.as_str());
            },
        }
        string_of(&out)
    }
}

/// Cross-encoder reranker error. The cause of a failed initialisation is
/// carried as its message.
#[derive(Debug, Clone, PartialEq)]
pub enum RerankError {
    Init(String),
    Rerank(String),
    ModelNotFound(String),
}

impl RerankError {
    pub open spec fn message_spec(&self) -> Seq<char> {
        match self {
            RerankError::Init(s) => "failed to initialize reranker model: "@ + s@,
            RerankError::Rerank(s) => "reranking failed: "@ + s@,
            RerankError::ModelNotFound(s) => "model files not found at "@ + s@,
        }
    }

    /// The error's human-readable message.
    pub fn message(&self) -> (r: String)
        ensures
            r@ == self.message_spec(),
    {
        let mut out: Vec<char> = Vec::new();
        match self {
            RerankError::Init(s) => {
                extend_str(&mut out, "failed to initialize reranker model: ");
                extend_str(&mut out, s.as_str());
            },
            RerankError::Rerank(s) => {
                extend_str(&mut out, "reranking failed: ");
                extend_str(&mut out, s.as_str());
            },
            RerankError::ModelNotFound(s) => {
                extend_str(&mut out, "model files not found at ");
                extend_str(&mut out, s.as_str());
            },
        }
        string_of(&out)
    }
}

/// Errors flowing out of the retrieval orchestrator. A store failure is
/// carried as the store error's message.
#[derive(Debug, Clone, PartialEq)]
pub enum EngineError {
    Embedding(EmbedError),
    Store(String),
    Generation(String),
    Llm(LlmError),
    Rerank(String),
}

impl EngineError {
    pub open spec fn message_spec(&self) -> Seq<char> {
        match self {
            EngineError::Embedding(e) => "embedding failed: "@ + e.message_spec(),
            EngineError::Store(s) => "store error: "@ + s@,
            EngineError::Generation(s) => "generation failed: "@ + s@,
            EngineError::Llm(e) => "LLM seam error: "@ + e.message_spec(),
            EngineError::Rerank(s) => "reranking failed: "@ + s@,
        }
    }

    /// The error's human-readable message.
    pub fn message(&self) -> (r: String)
        ensures
            r@ == self.message_spec(),
    {
        let mut out: Vec<char> = Vec::new();
        match self {
            EngineError::Embedding(e) => {
                extend_str(&mut out, "embedding failed: ");
                extend_str(&mut out, e.message().as_str());
            },
            EngineError::Store(s) => {
                extend_str(&mut out, "store error: ");
                extend_str(&mut out, s.as_str());
            },
            EngineError::Generation(s) => {
                extend_str(&mut out, "generation failed: ");
                extend_str(&mut out, s.as_str());
            },
            EngineError::Llm(e) => {
                extend_str(&mut out, "LLM seam error: ");
                extend_str(&mut out, e.message().as_str());
            },
            EngineError::Rerank(s) => {
                extend_str(&mut out, "reranking failed: ");
                extend_str(&mut out, s.as_str());
            },
        }
        string_of(&out)
    }
}

} // verus!
