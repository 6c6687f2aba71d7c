//! Benchmark requests over a materialized corpus.
use vstd::prelude::*;
use crate::dense::DenseModelSpec;
use crate::paths::{join, path_join};

verus! {

/// A retrieval quality benchmark over a materialized corpus.
#[derive(Debug, Clone)]
pub struct QualityBenchmarkRequest {
    pub strategy: String,
    pub baseline: Option<String>,
    pub command: String,
    pub corpus_dir: String,
    pub queries_path: Option<String>,
    pub qrels_path: String,
    pub shortlist: usize,
    pub dense_model: DenseModelSpec,
}

/// A search latency benchmark over a materialized corpus.
#[derive(Debug, Clone)]
pub struct LatencyBenchmarkRequest {
    pub strategy: String,
    pub command: String,
    pub corpus_dir: String,
    pub queries_path: String,
    pub shortlist: usize,
    pub dense_model: DenseModelSpec,
}

impl QualityBenchmarkRequest {
    /// The queries file of the benchmark: the one named, else the
    /// `test-queries.tsv` that materialization writes into the corpus.
    pub fn queries_file(&self) -> (r: String)
        ensures
            r@ == match self.queries_path {
                Some(q) => q@,
                None => path_join(self.corpus_dir@, "test-queries.tsv"@),
            },
    {
        match &self.queries_path {
            Some(q) => q.clone(),
            None => join(self.corpus_dir.as_str(), "test-queries.tsv"),
        }
    }

    /// The strategy the benchmark compares against: the one named, else
    /// `bm25`.
    pub fn baseline_strategy(&self) -> (r: String)
        ensures
            r@ == match self.baseline {
                Some(b) => b@,
                None => "bm25"@,
            },
    {
        match &self.baseline {
            Some(b) => b.clone(),
            None => "bm25".to_owned(),
        }
    }
}

} // verus!
