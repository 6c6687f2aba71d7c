//! The options a caller sets on one search: the path and query, and the
//! strategy, limits, models, retrievers, fusion and reranking to use.
use vstd::prelude::*;
use crate::dense::DenseModelSpec;

verus! {

/// A first-stage retriever.
#[derive(Debug, Clone, Copy, PartialEq, Eq, Structural)]
pub enum Retriever {
    Bm25,
    Phrase,
    Vector,
}

/// How the rankings of several retrievers are fused.
#[derive(Debug, Clone, Copy, PartialEq, Eq, Structural)]
pub enum Fusion {
    Rrf,
}

/// How fused candidates are reranked.
#[derive(Debug, Clone, Copy, PartialEq, Eq, Structural)]
pub enum Reranking {
    /// No reranking.
    Disabled,
    PositionAware,
    Llm,
    Jina,
    Gemma,
}

/// What a search overrides of the configured defaults; everything absent
/// falls back to them.
#[derive(Debug, Clone)]
pub struct SearchOptions {
    pub strategy: Option<String>,
    pub intent: Option<String>,
    pub limit: Option<usize>,
    pub shortlist: Option<usize>,
    pub dense_model: Option<DenseModelSpec>,
    pub verbose: u8,
    pub retriever_timeout_ms: Option<u64>,
    pub retrievers: Option<Vec<Retriever>>,
    pub fusion: Option<Fusion>,
    pub reranking: Option<Reranking>,
    pub cache_dir: Option<String>,
}

/// One search: where, what, why, and with which options.
#[derive(Debug, Clone)]
pub struct SearchInput {
    pub path: String,
    pub query: String,
    pub intent: Option<String>,
    pub options: SearchOptions,
}

/// Options that override nothing.
pub open spec fn no_options() -> SearchOptions {
    SearchOptions {
        strategy: None,
        intent: None,
        limit: None,
        shortlist: None,
        dense_model: None,
        verbose: 0,
        retriever_timeout_ms: None,
        retrievers: None,
        fusion: None,
        reranking: None,
        cache_dir: None,
    }
}

impl Default for SearchOptions {
    fn default() -> (r: Self)
        ensures
            r == no_options(),
    {
        SearchOptions {
            strategy: None,
            intent: None,
            limit: None,
            shortlist: None,
            dense_model: None,
            verbose: 0,
            retriever_timeout_ms: None,
            retrievers: None,
            fusion: None,
            reranking: None,
            cache_dir: None,
        }
    }
}

/// The path and query that the positional arguments of a direct search
/// name: a lone query searches the current directory, a path and a query
/// search that path; any other count names no search.
pub fn resolve_direct_targets(targets: &[String]) -> (r: Option<(String, String)>)
    ensures
        targets@.len() == 1 ==> (r matches Some((p, q)) && p@ == "."@ && q == targets@[0]),
        targets@.len() == 2 ==> (r matches Some((p, q)) && p == targets@[0] && q == targets@[1]),
        targets@.len() != 1 && targets@.len() != 2 ==> r is None,
{
    if targets.len() == 1 {
        Some((".".to_owned(), targets[0].clone()))
    } else if targets.len() == 2 {
        Some((targets[0].clone(), targets[1].clone()))
    } else {
        None
    }
}

impl SearchInput {
    /// A search of `path` for `query`, with no intent and default options.
    pub fn new(path: &str, query: &str) -> (r: Self)
        ensures
            r.path@ == path@,
            r.query@ == query@,
            r.intent is None,
            r.options == no_options(),
    {
        SearchInput { path: path.to_owned(), query: query.to_owned(), intent: None, options: SearchOptions::default() }
    }

    /// The same search with an intent.
    pub fn with_intent(self, intent: &str) -> (r: Self)
        ensures
            r.path == self.path,
            r.query == self.query,
            r.intent matches Some(i) && i@ == intent@,
            r.options == self.options,
    {
        SearchInput { intent: Some(intent.to_owned()), ..self }
    }

    /// The same search with other options.
    pub fn with_options(self, options: SearchOptions) -> (r: Self)
        ensures
            r == (SearchInput { options, ..self }),
    {
        SearchInput { options, ..self }
    }
}

impl SearchOptions {
    /// The same options with a strategy.
    pub fn with_strategy(self, strategy: &str) -> (r: Self)
        ensures
            r.strategy matches Some(s) && s@ == strategy@,
            r == (SearchOptions { strategy: r.strategy, ..self }),
    {
        SearchOptions { strategy: Some(strategy.to_owned()), ..self }
    }

    /// The same options with an intent.
    pub fn with_intent(self, intent: &str) -> (r: Self)
        ensures
            r.intent matches Some(s) && s@ == intent@,
            r == (SearchOptions { intent: r.intent, ..self }),
    {
        SearchOptions { intent: Some(intent.to_owned()), ..self }
    }

    /// The same options with a result limit.
    pub fn with_limit(self, limit: usize) -> (r: Self)
        ensures
            r == (SearchOptions { limit: Some(limit), ..self }),
    {
        SearchOptions { limit: Some(limit), ..self }
    }

    /// The same options with a rerank shortlist size.
    pub fn with_shortlist(self, shortlist: usize) -> (r: Self)
        ensures
            r == (SearchOptions { shortlist: Some(shortlist), ..self }),
    {
        SearchOptions { shortlist: Some(shortlist), ..self }
    }

    /// The same options with a dense model.
    pub fn with_dense_model(self, dense_model: DenseModelSpec) -> (r: Self)
        ensures
            r == (SearchOptions { dense_model: Some(dense_model), ..self }),
    {
        SearchOptions { dense_model: Some(dense_model), ..self }
    }

    /// The same options with a retriever timeout in milliseconds.
    pub fn with_retriever_timeout_ms(self, timeout_ms: u64) -> (r: Self)
        ensures
            r == (SearchOptions { retriever_timeout_ms: Some(timeout_ms), ..self }),
    {
        SearchOptions { retriever_timeout_ms: Some(timeout_ms), ..self }
    }

    /// The same options with a verbosity level.
    pub fn with_verbose(self, verbose: u8) -> (r: Self)
        ensures
            r == (SearchOptions { verbose, ..self }),
    {
        SearchOptions { verbose, ..self }
    }

    /// The same options with a set of retrievers.
    pub fn with_retrievers(self, retrievers: Vec<Retriever>) -> (r: Self)
        ensures
            r == (SearchOptions { retrievers: Some(retrievers), ..self }),
    {
        SearchOptions { retrievers: Some(retrievers), ..self }
    }

    /// The same options with a fusion method.
    pub fn with_fusion(self, fusion: Fusion) -> (r: Self)
        ensures
            r == (SearchOptions { fusion: Some(fusion), ..self }),
    {
        SearchOptions { fusion: Some(fusion), ..self }
    }

    /// The same options with a reranking method.
    pub fn with_reranking(self, reranking: Reranking) -> (r: Self)
        ensures
            r == (SearchOptions { reranking: Some(reranking), ..self }),
    {
        SearchOptions { reranking: Some(reranking), ..self }
    }

    /// The same options with a cache directory.
    pub fn with_cache_dir(self, cache_dir: &str) -> (r: Self)
        ensures
            r.cache_dir matches Some(d) && d@ == cache_dir@,
            r == (SearchOptions { cache_dir: r.cache_dir, ..self }),
    {
        SearchOptions { cache_dir: Some(cache_dir.to_owned()), ..self }
    }
}

} // verus!
