use std::path::{Path, PathBuf};

use sift::cache::breadcrumb::{breadcrumb_cache_path, ActiveBreadcrumbSector, BreadcrumbJournal};
use sift::cache::frontier::{FrontierActiveRebuild, FrontierLedger};
use sift::cache::model::{CacheEntry, Manifest};
use sift::cache::sector::{
    relative_member_path, sector_bm25_shard_cache_path, sector_map_cache_path, stable_path_key, SectorMap,
    SectorMemberInput, SectorPartitionStrategy,
};
use sift::cache::{
    choose_cache_dir, choose_cache_path, corpus_cache_key, counterpart_cache_path, resolve_compatible_cache_path,
    unix_cache_root,
};
use sift::dense::choose_model_cache_root;

#[test]
fn breadcrumb_cache_path_uses_existing_corpus_key_namespace() {
    let path = breadcrumb_cache_path("/tmp/sift-cache", "/repo");
    assert!(Path::new(&path).starts_with("/tmp/sift-cache/artifacts/breadcrumbs"));
}

#[test]
fn frontier_ledger_tracks_clean_mounts_and_dirty_rebuild_progress() {
    let mut frontier = FrontierLedger::new(4, 4);

    frontier.record_clean_mount("sector-clean");
    frontier.start_dirty_rebuild("sector-dirty-a", 3, false, 0);
    frontier.advance_dirty_rebuild("sector-dirty-a", 2);
    frontier.complete_dirty_rebuild("sector-dirty-a", false);

    assert_eq!(frontier.total_sector_count, 4);
    assert_eq!(frontier.mounted_sector_count, 2);
    assert_eq!(frontier.reused_sector_count, 1);
    assert_eq!(frontier.dirty_sector_count, 2);
    assert_eq!(frontier.completed_dirty_sector_count, 1);
    assert_eq!(frontier.rebuilding_sector_count, 0);
    assert!(frontier.active_rebuild.is_none());
}

#[test]
fn frontier_ledger_derives_resume_state_from_breadcrumbs() {
    let mut frontier = FrontierLedger::new(5, 3);
    let journal = BreadcrumbJournal {
        schema_version: 1,
        corpus_key: "corpus".to_string(),
        run_id: "run-1".to_string(),
        updated_at_unix_secs: 1,
        dirty_sectors: vec!["sector-a".to_string(), "sector-b".to_string(), "sector-c".to_string()],
        completed_sectors: vec!["sector-a".to_string()],
        active_sector: Some(ActiveBreadcrumbSector {
            sector_id: "sector-b".to_string(),
            next_member_offset: 1,
            next_member_relative_path: Some("doc.txt".into()),
            sector_member_count: 3,
        }),
    };

    frontier.apply_breadcrumb_resume(&journal);

    assert_eq!(frontier.mounted_sector_count, 1);
    assert_eq!(frontier.reused_sector_count, 1);
    assert_eq!(frontier.dirty_sector_count, 2);
    assert_eq!(frontier.completed_dirty_sector_count, 1);
    assert_eq!(frontier.rebuilding_sector_count, 1);
    assert_eq!(frontier.resumed_sector_count, 1);
    assert_eq!(
        frontier.active_rebuild,
        Some(FrontierActiveRebuild {
            sector_id: "sector-b".to_string(),
            next_member_offset: 1,
            sector_member_count: 3,
            resumed: true,
        })
    );
}

#[test]
fn sector_partitioning_is_deterministic_across_input_order() {
    let root = "/repo";
    let strategy = SectorPartitionStrategy::stable_hash(8);
    let ordered = vec![
        SectorMemberInput::filesystem("/repo/src/main.rs", "hash-main"),
        SectorMemberInput::filesystem("/repo/src/lib.rs", "hash-lib"),
        SectorMemberInput::filesystem("/repo/tests/search.rs", "hash-test"),
        SectorMemberInput::synthetic(".sift/context/environment/branch.txt", "hash-branch"),
    ];
    let reversed = ordered.iter().cloned().rev().collect::<Vec<_>>();

    let left = SectorMap::build_for_root(root, ordered, strategy);
    let right = SectorMap::build_for_root(root, reversed, strategy);

    assert_eq!(left, right);
}

#[test]
fn membership_fingerprint_changes_when_proof_material_changes() {
    let root = "/repo";
    let strategy = SectorPartitionStrategy::stable_hash(1);
    let baseline = SectorMap::build_for_root(
        root,
        vec![
            SectorMemberInput::filesystem("/repo/src/main.rs", "hash-main-v1"),
            SectorMemberInput::filesystem("/repo/src/lib.rs", "hash-lib"),
        ],
        strategy,
    );
    let changed = SectorMap::build_for_root(
        root,
        vec![
            SectorMemberInput::filesystem("/repo/src/main.rs", "hash-main-v2"),
            SectorMemberInput::filesystem("/repo/src/lib.rs", "hash-lib"),
        ],
        strategy,
    );

    assert_eq!(baseline.sectors.len(), 1);
    assert_eq!(changed.sectors.len(), 1);
    assert_ne!(
        baseline.sectors[0].membership.proof_fingerprint,
        changed.sectors[0].membership.proof_fingerprint
    );
}

#[test]
fn sector_cache_paths_extend_the_existing_corpus_key_layout() {
    let cache_base = "/tmp/sift-cache";
    let root = "/repo";
    let corpus_key = corpus_cache_key(root);
    let sector_map_path = sector_map_cache_path(cache_base, root);
    let shard_path = sector_bm25_shard_cache_path(cache_base, root, "sector-01", "bm25-shard-signature");

    assert_eq!(
        PathBuf::from(sector_map_path),
        PathBuf::from("/tmp/sift-cache")
            .join("artifacts")
            .join("sectors")
            .join(format!("{corpus_key}.bin"))
    );
    assert_eq!(
        PathBuf::from(shard_path),
        PathBuf::from("/tmp/sift-cache")
            .join("artifacts")
            .join("indexes")
            .join(corpus_key)
            .join("sectors")
            .join("sector-01")
            .join("bm25-shard-signature.bin")
    );
}

#[test]
fn corpus_cache_key_is_the_blake3_hex_of_the_root() {
    let key = corpus_cache_key("/repo");
    assert_eq!(key, blake3::hash("/repo".as_bytes()).to_hex().to_string());
    assert_eq!(key.len(), 64);
    assert_ne!(key, corpus_cache_key("/repo2"));
}

#[test]
fn breadcrumb_cache_path_is_keyed_by_corpus() {
    let path = breadcrumb_cache_path("/tmp/sift-cache", "/repo");
    let expected = PathBuf::from("/tmp/sift-cache")
        .join("artifacts")
        .join("breadcrumbs")
        .join(format!("{}.bin", corpus_cache_key("/repo")));
    assert_eq!(PathBuf::from(path), expected);
}

#[test]
fn breadcrumb_staleness_follows_twelve_hours() {
    let mut journal = BreadcrumbJournal::new("corpus".into(), "run".into(), vec!["a".into()]);
    assert_eq!(journal.schema_version, 1);
    assert!(journal.completed_sectors.is_empty());
    assert!(!journal.is_stale(1_000_000));
    journal.updated_at_unix_secs = 1_000;
    assert!(!journal.is_stale(1_000 + 43_200));
    assert!(journal.is_stale(1_000 + 43_201));
}

#[test]
fn repeated_clean_mounts_count_once() {
    let mut frontier = FrontierLedger::new(3, 0);
    frontier.record_clean_mount("s");
    frontier.record_clean_mount("s");
    assert_eq!(frontier.mounted_sector_count, 1);
    assert_eq!(frontier.reused_sector_count, 1);
}

#[test]
fn sector_map_places_every_member_once() {
    let strategy = SectorPartitionStrategy::stable_hash(4);
    let map = SectorMap::build_for_root(
        "/repo",
        vec![
            SectorMemberInput::filesystem("/repo/a.rs", "h1"),
            SectorMemberInput::filesystem("/repo/b.rs", "h2"),
            SectorMemberInput::filesystem("/repo/c.rs", "h3"),
        ],
        strategy,
    );
    let total: usize = map.sectors.iter().map(|s| s.membership.member_count).sum();
    assert_eq!(total, 3);
    assert_eq!(map.corpus_key, corpus_cache_key("/repo"));
}

#[test]
fn stable_hash_strategy_keeps_a_positive_bucket_count() {
    assert_eq!(SectorPartitionStrategy::stable_hash(0).bucket_count(), 1);
    assert_eq!(SectorPartitionStrategy::stable_hash(8).bucket_count(), 8);
}

#[test]
fn member_paths_are_relative_to_the_root() {
    assert_eq!(relative_member_path("/repo", false, "/repo/src/lib.rs"), "src/lib.rs");
    assert_eq!(relative_member_path("/repo", false, "/elsewhere/x.rs"), "/elsewhere/x.rs");
    assert_eq!(stable_path_key("a\\b/c"), "a/b/c");
}

#[test]
fn cache_counterparts_move_between_roots() {
    assert_eq!(
        counterpart_cache_path("/home/u/.cache/sift/eval/doc.txt", "/home/u/.cache/sift", "/lib/caches/sift"),
        Some("/lib/caches/sift/eval/doc.txt".to_string())
    );
    assert_eq!(
        counterpart_cache_path("/lib/caches/sift/eval/doc.txt", "/home/u/.cache/sift", "/lib/caches/sift"),
        Some("/home/u/.cache/sift/eval/doc.txt".to_string())
    );
    assert_eq!(counterpart_cache_path("/other/doc.txt", "/a", "/b"), None);
    assert_eq!(counterpart_cache_path("/a/doc.txt", "/a", "/a/"), None);
}

#[test]
fn compatible_cache_path_prefers_existing_candidates() {
    assert_eq!(choose_cache_path("/a/x", Some("/b/x".to_string()), true, true), "/a/x");
    assert_eq!(choose_cache_path("/a/x", Some("/b/x".to_string()), false, true), "/b/x");
    assert_eq!(choose_cache_path("/a/x", Some("/b/x".to_string()), false, false), "/a/x");
    assert_eq!(choose_cache_path("/a/x", None, false, true), "/a/x");
    assert_eq!(
        resolve_compatible_cache_path("/no/such/sift/path/x", None, Some("/also/none")),
        "/no/such/sift/path/x"
    );
}

#[test]
fn manifest_check_after_update_returns_the_written_hash() {
    let mut manifest = Manifest::default();
    let entry = CacheEntry { inode: 7, mtime_secs: 10, mtime_nanos: 5, size: 99, blake3_hash: String::new() };
    assert_eq!(manifest.check_heuristics("/repo/a.txt", &entry), None);
    manifest.update("/repo/a.txt".to_string(), entry.clone(), "abc".to_string());
    assert_eq!(manifest.check_heuristics("/repo/a.txt", &entry), Some("abc".to_string()));
    assert_eq!(manifest.check_heuristics("/repo//a.txt", &entry), Some("abc".to_string()));
    let changed = CacheEntry { size: 100, ..entry.clone() };
    assert_eq!(manifest.check_heuristics("/repo/a.txt", &changed), None);
}

#[test]
fn rebuilding_count_follows_the_active_rebuild_and_dirty_never_rises() {
    let mut f = FrontierLedger::new(5, 3);
    assert_eq!((f.rebuilding_sector_count, f.active_rebuild.is_some()), (0, false));
    f.start_dirty_rebuild("s1", 4, false, 0);
    assert_eq!((f.rebuilding_sector_count, f.active_rebuild.is_some()), (1, true));
    f.complete_dirty_rebuild("s2", false);
    assert_eq!((f.rebuilding_sector_count, f.active_rebuild.is_some()), (1, true));
    assert_eq!(f.dirty_sector_count, 2);
    f.complete_dirty_rebuild("s1", false);
    assert_eq!((f.rebuilding_sector_count, f.active_rebuild.is_some()), (0, false));
    assert_eq!(f.dirty_sector_count, 1);
    f.record_clean_mount("s3");
    f.record_clean_mount("s4");
    f.record_clean_mount("s5");
    assert_eq!(f.dirty_sector_count, 0);
    assert_eq!(f.total_sector_count, 5);
}

#[test]
fn cache_directories_follow_their_precedence() {
    assert_eq!(unix_cache_root(Some("/xdg"), Some("/home/u")), Some("/xdg/sift".to_string()));
    assert_eq!(unix_cache_root(None, Some("/home/u")), Some("/home/u/.cache/sift".to_string()));
    assert_eq!(unix_cache_root(None, None), None);
    let roots = (Some("/shared"), Some("/unix"), Some("/project"));
    assert_eq!(choose_cache_dir("eval", Some("/e"), Some("/m"), roots.0, roots.1, roots.2), Some("/e".to_string()));
    assert_eq!(choose_cache_dir("models", None, Some("/m"), roots.0, roots.1, roots.2), Some("/m".to_string()));
    assert_eq!(choose_cache_dir("eval", None, Some("/m"), roots.0, roots.1, roots.2), Some("/shared/eval".to_string()));
    assert_eq!(choose_cache_dir("eval", None, None, None, roots.1, roots.2), Some("/unix/eval".to_string()));
    assert_eq!(choose_cache_dir("eval", None, None, None, None, roots.2), Some("/project/eval".to_string()));
    assert_eq!(choose_cache_dir("eval", None, None, None, None, None), None);
}

#[test]
fn model_cache_root_follows_its_precedence() {
    assert_eq!(choose_model_cache_root(Some("/m"), Some("/xdg"), Some("/h")), Some("/m".to_string()));
    assert_eq!(choose_model_cache_root(None, Some("/xdg"), Some("/h")), Some("/xdg/sift/models".to_string()));
    assert_eq!(choose_model_cache_root(None, None, Some("/h")), Some("/h/.cache/sift/models".to_string()));
    assert_eq!(choose_model_cache_root(None, None, None), None);
}

#[test]
fn ledger_counters_grow_from_where_they_stand() {
    let mut f = FrontierLedger { mounted_sector_count: 5, reused_sector_count: 2, ..FrontierLedger::default() };
    f.record_clean_mount("a");
    f.record_clean_mount("a");
    assert_eq!(f.mounted_sector_count, 6);
    assert_eq!(f.reused_sector_count, 3);
    f.complete_dirty_rebuild("b", false);
    assert_eq!(f.mounted_sector_count, 7);
    assert_eq!(f.completed_dirty_sector_count, 1);
}
