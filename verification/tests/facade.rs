use sift::dense::DenseModelSpec;
use sift::facade::{Fusion, Reranking, Retriever, SearchInput, SearchOptions, resolve_direct_targets};

#[test]
fn search_input_starts_with_defaults() {
    let input = SearchInput::new("/repo", "needle");
    assert_eq!(input.path, "/repo");
    assert_eq!(input.query, "needle");
    assert!(input.intent.is_none());
    assert!(input.options.limit.is_none());
    let input = input.with_intent("find it");
    assert_eq!(input.intent.as_deref(), Some("find it"));
}

#[test]
fn options_builders_set_one_field_each() {
    let options = SearchOptions::default()
        .with_strategy("bm25")
        .with_limit(5)
        .with_shortlist(3)
        .with_verbose(2)
        .with_retriever_timeout_ms(250)
        .with_retrievers(vec![Retriever::Bm25, Retriever::Phrase])
        .with_fusion(Fusion::Rrf)
        .with_reranking(Reranking::Disabled)
        .with_cache_dir("/tmp/c")
        .with_intent("why")
        .with_dense_model(DenseModelSpec::default());
    assert_eq!(options.strategy.as_deref(), Some("bm25"));
    assert_eq!(options.limit, Some(5));
    assert_eq!(options.shortlist, Some(3));
    assert_eq!(options.verbose, 2);
    assert_eq!(options.retriever_timeout_ms, Some(250));
    assert_eq!(options.retrievers, Some(vec![Retriever::Bm25, Retriever::Phrase]));
    assert_eq!(options.fusion, Some(Fusion::Rrf));
    assert_eq!(options.reranking, Some(Reranking::Disabled));
    assert_eq!(options.cache_dir.as_deref(), Some("/tmp/c"));
    assert_eq!(options.intent.as_deref(), Some("why"));
    assert_eq!(options.dense_model.map(|m| m.max_length), Some(40));
    let input = SearchInput::new("/r", "q").with_options(SearchOptions::default().with_limit(1));
    assert_eq!(input.options.limit, Some(1));
}

#[test]
fn direct_targets_name_a_path_and_a_query() {
    assert_eq!(resolve_direct_targets(&["needle".to_string()]), Some((".".to_string(), "needle".to_string())));
    assert_eq!(
        resolve_direct_targets(&["/repo".to_string(), "needle".to_string()]),
        Some(("/repo".to_string(), "needle".to_string()))
    );
    assert_eq!(resolve_direct_targets(&[]), None);
    assert_eq!(resolve_direct_targets(&["a".to_string(), "b".to_string(), "c".to_string()]), None);
}

#[test]
fn direct_search_targets_remain_query_driven_without_agent() {
    let targets = vec!["./docs".to_string(), "cache invalidation".to_string()];
    let (path, query) = resolve_direct_targets(&targets).expect("resolve direct search targets");
    assert_eq!(path, "./docs");
    assert_eq!(query, "cache invalidation");
}
