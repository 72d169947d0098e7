use code_rag::config::{fetch_limits, DualEmbeddingConfig, RerankConfig, RetrievalConfig};
use code_rag::intent::{pre_classify_comparison, route, QueryIntent, RoutingTable};

// ---- config -----------------------------------------------------------------

#[test]
fn test_fetch_limits_per_type() {
    let config = RetrievalConfig {
        code_limit: 5,
        readme_limit: 2,
        crate_limit: 3,
        module_doc_limit: 3,
        folder_limit: 3,
        file_limit: 2,
    };
    let rerank = RerankConfig {
        enabled: true,
        code_fetch_multiplier: 4,
        readme_fetch_multiplier: 2,
        crate_fetch_multiplier: 1,
        module_doc_fetch_multiplier: 2,
        folder_fetch_multiplier: 2,
        file_fetch_multiplier: 2,
    };
    let fetched = fetch_limits(&config, &rerank);
    assert_eq!(fetched.code_limit, 20);
    assert_eq!(fetched.readme_limit, 4);
    assert_eq!(fetched.crate_limit, 3);
    assert_eq!(fetched.module_doc_limit, 6);
    assert_eq!(fetched.folder_limit, 6);
    assert_eq!(fetched.file_limit, 4);
}

#[test]
fn test_fetch_limits_disabled() {
    let config = RetrievalConfig {
        code_limit: 5,
        readme_limit: 2,
        crate_limit: 3,
        module_doc_limit: 3,
        folder_limit: 0,
        file_limit: 0,
    };
    let rerank = RerankConfig { enabled: false, ..Default::default() };
    let fetched = fetch_limits(&config, &rerank);
    assert_eq!(fetched.code_limit, 5);
    assert_eq!(fetched.readme_limit, 2);
    assert_eq!(fetched.crate_limit, 3);
    assert_eq!(fetched.module_doc_limit, 3);
    assert_eq!(fetched.folder_limit, 0);
    assert_eq!(fetched.file_limit, 0);
}

#[test]
fn test_retrieval_config_default_folder_limit_zero() {
    assert_eq!(RetrievalConfig::default().folder_limit, 0);
}

#[test]
fn test_retrieval_config_default_file_limit_zero() {
    assert_eq!(RetrievalConfig::default().file_limit, 0);
}

#[test]
fn test_rerank_config_default() {
    let rc = RerankConfig::default();
    assert!(!rc.enabled);
    assert_eq!(rc.code_fetch_multiplier, 4);
    assert_eq!(rc.crate_fetch_multiplier, 1);
    assert_eq!(rc.file_fetch_multiplier, 2);
}

#[test]
fn dual_embedding_disabled_by_default() {
    assert!(!DualEmbeddingConfig::default().enabled);
}

#[test]
fn fetch_limits_with_unit_multipliers_keeps_limits() {
    let config = RetrievalConfig::default();
    let rerank = RerankConfig {
        enabled: true,
        code_fetch_multiplier: 1,
        readme_fetch_multiplier: 1,
        crate_fetch_multiplier: 1,
        module_doc_fetch_multiplier: 1,
        folder_fetch_multiplier: 1,
        file_fetch_multiplier: 1,
    };
    let fetched = fetch_limits(&config, &rerank);
    assert_eq!(fetched.code_limit, 5);
    assert_eq!(fetched.readme_limit, 2);
    assert_eq!(fetched.crate_limit, 3);
}

// ---- routing ----------------------------------------------------------------

#[test]
fn test_route_overview() {
    let table = RoutingTable::default();
    let config = route(QueryIntent::Overview, &table);
    assert_eq!(config.code_limit, 5);
    assert_eq!(config.readme_limit, 3);
    assert_eq!(config.crate_limit, 3);
    assert_eq!(config.module_doc_limit, 3);
}

#[test]
fn test_route_implementation() {
    let table = RoutingTable::default();
    let config = route(QueryIntent::Implementation, &table);
    assert_eq!(config.code_limit, 5);
    assert_eq!(config.readme_limit, 1);
}

#[test]
fn test_route_relationship() {
    let table = RoutingTable::default();
    let config = route(QueryIntent::Relationship, &table);
    assert_eq!(config.code_limit, 5);
}

#[test]
fn test_route_comparison() {
    let table = RoutingTable::default();
    let config = route(QueryIntent::Comparison, &table);
    assert_eq!(config.code_limit, 5);
    assert_eq!(config.crate_limit, 3);
}

#[test]
fn test_route_unknown_uses_default() {
    // Empty routing table -> always falls back to default
    let table = RoutingTable {
        routes: Vec::new(),
        default: RetrievalConfig { code_limit: 99, ..RetrievalConfig::default() },
    };
    let config = route(QueryIntent::Overview, &table);
    assert_eq!(config.code_limit, 99);
}

#[test]
fn route_takes_the_first_matching_entry() {
    let table = RoutingTable {
        routes: vec![
            (QueryIntent::Comparison, RetrievalConfig { code_limit: 7, ..RetrievalConfig::default() }),
            (QueryIntent::Comparison, RetrievalConfig { code_limit: 8, ..RetrievalConfig::default() }),
        ],
        default: RetrievalConfig::default(),
    };
    assert_eq!(route(QueryIntent::Comparison, &table).code_limit, 7);
    assert_eq!(route(QueryIntent::Overview, &table).code_limit, 5);
}

// ---- pre-classifier ---------------------------------------------------------

#[test]
fn test_pre_classify_difference_between() {
    assert_eq!(
        pre_classify_comparison("What is the difference between X and Y?"),
        Some(QueryIntent::Comparison)
    );
    assert_eq!(pre_classify_comparison("Differences between A and B"), Some(QueryIntent::Comparison));
}

#[test]
fn test_pre_classify_differ() {
    assert_eq!(pre_classify_comparison("How does A differ from B?"), Some(QueryIntent::Comparison));
    assert_eq!(pre_classify_comparison("How do the handlers differ?"), Some(QueryIntent::Comparison));
}

#[test]
fn test_pre_classify_compare_and_vs() {
    assert_eq!(pre_classify_comparison("Compare A and B"), Some(QueryIntent::Comparison));
    assert_eq!(pre_classify_comparison("X vs Y"), Some(QueryIntent::Comparison));
}

#[test]
fn test_pre_classify_adversarial_idiom_returns_none() {
    assert_eq!(pre_classify_comparison("What is the difference this makes?"), None);
}

#[test]
fn test_pre_classify_adversarial_vs_in_filename_returns_none() {
    assert_eq!(pre_classify_comparison("How does transformer_vs_rnn.py work?"), None);
}

#[test]
fn test_pre_classify_non_comparison_returns_none() {
    assert_eq!(pre_classify_comparison("What is invoice-parse?"), None);
    assert_eq!(pre_classify_comparison("How does the retriever work?"), None);
    assert_eq!(pre_classify_comparison("What calls this function?"), None);
}

// ---- parsing ----------------------------------------------------------------

#[test]
fn test_from_str_all_variants() {
    assert_eq!("overview".parse::<QueryIntent>().unwrap(), QueryIntent::Overview);
    assert_eq!("implementation".parse::<QueryIntent>().unwrap(), QueryIntent::Implementation);
    assert_eq!("relationship".parse::<QueryIntent>().unwrap(), QueryIntent::Relationship);
    assert_eq!("comparison".parse::<QueryIntent>().unwrap(), QueryIntent::Comparison);
}

#[test]
fn test_from_str_invalid() {
    assert!("nonsense".parse::<QueryIntent>().is_err());
    assert!("Overview".parse::<QueryIntent>().is_err()); // case-sensitive
    assert!("".parse::<QueryIntent>().is_err());
}

#[test]
fn parse_error_names_the_input() {
    assert_eq!(QueryIntent::parse("bogus"), Err("unknown intent: bogus".to_string()));
}
