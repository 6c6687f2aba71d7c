//! The breadcrumb journal: which dirty sectors a rebuild run has finished and
//! where it stopped, so that an interrupted run can resume.
use vstd::prelude::*;
use crate::cache::{corpus_cache_key, corpus_key};
use crate::paths::{join, path_join};

verus! {

/// The layout version written into new journals.
pub const BREADCRUMB_SCHEMA_VERSION: u32 = 1;

/// A journal older than this many seconds is stale (twelve hours).
pub const BREADCRUMB_STALE_AFTER_SECS: i64 = 43200;

/// Progress of one rebuild run over the dirty sectors of a corpus.
#[derive(Debug, Clone, PartialEq, Eq)]
pub struct BreadcrumbJournal {
    pub schema_version: u32,
    pub corpus_key: String,
    pub run_id: String,
    pub updated_at_unix_secs: i64,
    pub dirty_sectors: Vec<String>,
    pub completed_sectors: Vec<String>,
    pub active_sector: Option<ActiveBreadcrumbSector>,
}

/// The sector a run was rebuilding when it last wrote its journal.
#[derive(Debug, Clone, PartialEq, Eq)]
pub struct ActiveBreadcrumbSector {
    pub sector_id: String,
    pub next_member_offset: usize,
    pub next_member_relative_path: Option<String>,
    pub sector_member_count: usize,
}

/// Whether a journal last written at `updated` is stale at time `now`: it was
/// written at some positive time and more than twelve hours have passed.
pub open spec fn journal_is_stale(updated: i64, now: i64) -> bool {
    updated > 0 && (now as int) - (updated as int) > BREADCRUMB_STALE_AFTER_SECS as int
}

/// Where the journal of the corpus at `root` is kept under `cache_base`.
pub open spec fn breadcrumb_path_spec(cache_base: Seq<char>, root: Seq<char>) -> Seq<char> {
    path_join(
        path_join(path_join(cache_base, "artifacts"@), "breadcrumbs"@),
        corpus_key(root) + ".bin"@,
    )
}

impl BreadcrumbJournal {
    /// A fresh journal for a run over `dirty_sectors`: current schema, never
    /// written, nothing completed, nothing active.
    pub fn new(corpus_key: String, run_id: String, dirty_sectors: Vec<String>) -> (r: Self)
        ensures
            r.schema_version == BREADCRUMB_SCHEMA_VERSION,
            r.corpus_key == corpus_key,
            r.run_id == run_id,
            r.updated_at_unix_secs == 0,
            r.dirty_sectors == dirty_sectors,
            r.completed_sectors@.len() == 0,
            r.active_sector is None,
    {
        BreadcrumbJournal {
            schema_version: BREADCRUMB_SCHEMA_VERSION,
            corpus_key,
            run_id,
            updated_at_unix_secs: 0,
            dirty_sectors,
            completed_sectors: Vec::new(),
            active_sector: None,
        }
    }

    /// Whether the journal is stale at `now_unix_secs`.
    pub fn is_stale(&self, now_unix_secs: i64) -> (r: bool)
        ensures
            r == journal_is_stale(self.updated_at_unix_secs, now_unix_secs),
    {
        let elapsed: i128 = now_unix_secs as i128 - self.updated_at_unix_secs as i128;
        self.updated_at_unix_secs > 0 && elapsed > BREADCRUMB_STALE_AFTER_SECS as i128
    }
}

/// Where the journal of the corpus at `root` is kept under `cache_base`:
/// `artifacts/breadcrumbs/<corpus key>.bin`.
pub fn breadcrumb_cache_path(cache_base: &str, root: &str) -> (r: String)
    ensures
        r@ == breadcrumb_path_spec(cache_base@, root@),
{
    let a = join(cache_base, "artifacts");
    let b = join(a.as_str(), "breadcrumbs");
    let mut name = corpus_cache_key(root);
    name.append(".bin");
    join(b.as_str(), name.as_str())
}

} // verus!
