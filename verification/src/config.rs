//! Retrieval limits, rerank over-fetch multipliers and the dual-embedding
//! switch.
use vstd::prelude::*;

verus! {

/// Whether the signature-vector arm of dual-embedding retrieval is enabled.
#[derive(Clone, Debug)]
pub struct DualEmbeddingConfig {
    /// When false, only the body vector column is queried.
    pub enabled: bool,
}

impl Default for DualEmbeddingConfig {
    fn default() -> (r: Self)
        ensures
            !r.enabled,
    {
        DualEmbeddingConfig { enabled: false }
    }
}

/// How many chunks of each kind to retrieve.
#[derive(Clone, Debug)]
pub struct RetrievalConfig {
    pub code_limit: usize,
    pub readme_limit: usize,
    pub crate_limit: usize,
    pub module_doc_limit: usize,
    /// Folder-level summary chunks; zero unless a route opens it.
    pub folder_limit: usize,
    /// File-level summary chunks; zero unless a route opens it.
    pub file_limit: usize,
}

impl RetrievalConfig {
    /// The six limits, in field order.
    pub open spec fn limits(&self) -> (usize, usize, usize, usize, usize, usize) {
        (self.code_limit, self.readme_limit, self.crate_limit, self.module_doc_limit, self.folder_limit, self.file_limit)
    }

    /// A field-for-field copy.
    pub fn copy(&self) -> (r: RetrievalConfig)
        ensures
            r.limits() == self.limits(),
    {
        RetrievalConfig {
            code_limit: self.code_limit,
            readme_limit: self.readme_limit,
            crate_limit: self.crate_limit,
            module_doc_limit: self.module_doc_limit,
            folder_limit: self.folder_limit,
            file_limit: self.file_limit,
        }
    }
}

impl Default for RetrievalConfig {
    fn default() -> (r: Self)
        ensures
            r.limits() == (5usize, 2usize, 3usize, 3usize, 0usize, 0usize),
    {
        RetrievalConfig {
            code_limit: 5,
            readme_limit: 2,
            crate_limit: 3,
            module_doc_limit: 3,
            folder_limit: 0,
            file_limit: 0,
        }
    }
}

/// Cross-encoder reranking configuration.
#[derive(Clone, Debug)]
pub struct RerankConfig {
    /// Whether reranking is enabled.
    pub enabled: bool,
    /// Per-type over-retrieval multipliers: fetch limit = final limit × multiplier.
    pub code_fetch_multiplier: usize,
    pub readme_fetch_multiplier: usize,
    pub crate_fetch_multiplier: usize,
    pub module_doc_fetch_multiplier: usize,
    pub folder_fetch_multiplier: usize,
    /// Multiplier for file-level chunks.
    pub file_fetch_multiplier: usize,
}

impl RerankConfig {
    /// The six multipliers, in the order of the retrieval limits.
    pub open spec fn multipliers(&self) -> (usize, usize, usize, usize, usize, usize) {
        (
            self.code_fetch_multiplier,
            self.readme_fetch_multiplier,
            self.crate_fetch_multiplier,
            self.module_doc_fetch_multiplier,
            self.folder_fetch_multiplier,
            self.file_fetch_multiplier,
        )
    }
}

impl Default for RerankConfig {
    fn default() -> (r: Self)
        ensures
            !r.enabled,
            r.multipliers() == (4usize, 2usize, 1usize, 2usize, 2usize, 2usize),
    {
        RerankConfig {
            enabled: false,
            code_fetch_multiplier: 4,
            readme_fetch_multiplier: 2,
            crate_fetch_multiplier: 1,
            module_doc_fetch_multiplier: 2,
            folder_fetch_multiplier: 2,
            file_fetch_multiplier: 2,
        }
    }
}

/// Every product of a limit and its multiplier fits in a `usize`.
pub open spec fn products_fit(c: &RetrievalConfig, r: &RerankConfig) -> bool {
    &&& c.code_limit * r.code_fetch_multiplier <= usize::MAX
    &&& c.readme_limit * r.readme_fetch_multiplier <= usize::MAX
    &&& c.crate_limit * r.crate_fetch_multiplier <= usize::MAX
    &&& c.module_doc_limit * r.module_doc_fetch_multiplier <= usize::MAX
    &&& c.folder_limit * r.folder_fetch_multiplier <= usize::MAX
    &&& c.file_limit * r.file_fetch_multiplier <= usize::MAX
}

/// Fetch limits: with reranking disabled, the final limits unchanged;
/// otherwise each final limit times its multiplier.
pub fn fetch_limits(final_config: &RetrievalConfig, rerank: &RerankConfig) -> (r: RetrievalConfig)
    requires
        rerank.enabled ==> products_fit(final_config, rerank),
    ensures
        !rerank.enabled ==> r.limits() == final_config.limits(),
        rerank.enabled ==> {
            &&& r.code_limit == final_config.code_limit * rerank.code_fetch_multiplier
            &&& r.readme_limit == final_config.readme_limit * rerank.readme_fetch_multiplier
            &&& r.crate_limit == final_config.crate_limit * rerank.crate_fetch_multiplier
            &&& r.module_doc_limit == final_config.module_doc_limit * rerank.module_doc_fetch_multiplier
            &&& r.folder_limit == final_config.folder_limit * rerank.folder_fetch_multiplier
            &&& r.file_limit == final_config.file_limit * rerank.file_fetch_multiplier
        },
{
    if !rerank.enabled {
        return final_config.copy();
    }
    RetrievalConfig {
        code_limit: final_config.code_limit * rerank.code_fetch_multiplier,
        readme_limit: final_config.readme_limit * rerank.readme_fetch_multiplier,
        crate_limit: final_config.crate_limit * rerank.crate_fetch_multiplier,
        module_doc_limit: final_config.module_doc_limit * rerank.module_doc_fetch_multiplier,
        folder_limit: final_config.folder_limit * rerank.folder_fetch_multiplier,
        file_limit: final_config.file_limit * rerank.file_fetch_multiplier,
    }
}

} // verus!
