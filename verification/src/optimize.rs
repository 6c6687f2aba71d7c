//! Prompt optimization runs.
use vstd::prelude::*;

verus! {

/// A prompt optimization run over a benchmark corpus.
#[derive(Debug, Clone)]
pub struct OptimizeRequest {
    pub corpus_dir: String,
    pub queries_path: String,
    pub qrels_path: String,
    pub shortlist: usize,
    pub iterations: usize,
    pub command: String,
    pub verbose: u8,
    pub query_limit: Option<usize>,
}

} // verus!
