use picmash::cache::{
    begin_prune, cache_prune_interval_seconds, is_active_cache_temp, lock_retention_paths,
    prune_target_bytes, remote_source_retention_limit, retention_of, round_robin_retention_paths,
    u64_setting, CacheEntry, CachePruneSummary, ExternalReadyCachePath, Retention,
};
use picmash::config::{
    FourChanBoardSource, FourChanContentConfig, FourChanHarvestConfig, ImportPolicy,
    LocalDirectorySource, RemoteImageFilterConfig, SourceConfig, UpstreamSource,
};
use picmash::harvest::StreamCounts;
use picmash::model::SessionSubsourceLock;
use picmash::ready_frontier::ReadyTargetProfile;
use picmash::scalar::Scalar;

fn file(name: &str, bytes: u64, last_used: i128, protected: bool) -> CacheEntry {
    CacheEntry { path: format!("/cache/{name}"), bytes, last_used, protected }
}

fn prune(entries: Vec<CacheEntry>, max_bytes: u64) -> CachePruneSummary {
    let mut run = begin_prune(entries, max_bytes);
    while run.next_victim().is_some() {
        run.note(true);
    }
    run.summary
}

fn ready(stream_id: i64, path: &str) -> ExternalReadyCachePath {
    ExternalReadyCachePath { stream_id, path: path.to_owned() }
}

fn source(upstream: UpstreamSource) -> SourceConfig {
    SourceConfig {
        weight: Scalar { bits: 1.0f32.to_bits() },
        import_policy: ImportPolicy::NotX,
        scan_interval_seconds: 60,
        upstream,
    }
}

fn board(name: &str) -> SourceConfig {
    source(UpstreamSource::FourChanBoard(FourChanBoardSource {
        board: name.to_owned(),
        content: FourChanContentConfig::default(),
        harvest: FourChanHarvestConfig::default(),
        filters: RemoteImageFilterConfig::default(),
    }))
}

fn directory(root: &str) -> SourceConfig {
    source(UpstreamSource::LocalDirectory(LocalDirectorySource {
        root: root.to_owned(),
        recurse: true,
        filters: RemoteImageFilterConfig::default(),
    }))
}

#[test]
fn prune_cache_tree_reduces_stable_files_below_target() {
    let summary = prune(
        vec![
            file("a.cache", 10, 0, false),
            file("b.cache", 10, 0, false),
            file("c.cache", 10, 0, false),
        ],
        20,
    );

    assert_eq!(summary.bytes_before, 30);
    assert!(summary.bytes_after <= 18);
    assert!(summary.files_removed >= 2);
    assert_eq!(summary.removed_paths.len(), summary.files_removed);
}

#[test]
fn prune_cache_tree_skips_active_temp_files() {
    let summary =
        prune(vec![file(".tmp-active", 100, 0, false), file("stable.cache", 100, 0, false)], 10);

    assert_eq!(summary.bytes_before, 100);
    assert_eq!(summary.files_removed, 1);
    assert!(!summary.removed_paths.iter().any(|path| path == "/cache/.tmp-active"));
}

#[test]
fn prune_cache_tree_spares_protected_paths_first() {
    let summary = prune(
        vec![
            file("live.cache", 10, 0, true),
            file("dead-a.cache", 10, 0, false),
            file("dead-b.cache", 10, 0, false),
        ],
        20,
    );

    assert!(summary.bytes_after <= 18);
    let removed = |name: &str| summary.removed_paths.iter().any(|path| path == name);
    assert!(!removed("/cache/live.cache"));
    assert!(removed("/cache/dead-a.cache"));
    assert!(removed("/cache/dead-b.cache"));
}

#[test]
fn round_robin_retention_spreads_across_streams_before_doubling_up() {
    let retained = round_robin_retention_paths(
        &vec![
            ready(10, "10-a"),
            ready(10, "10-b"),
            ready(20, "20-a"),
            ready(20, "20-b"),
            ready(30, "30-a"),
        ],
        4,
    );

    assert_eq!(retained.len(), 4);
    assert!(retained.contains(&"10-a".to_owned()));
    assert!(retained.contains(&"20-a".to_owned()));
    assert!(retained.contains(&"30-a".to_owned()));
}

#[test]
fn lock_retention_only_keeps_the_locked_stream() {
    let retained =
        lock_retention_paths(&vec![ready(10, "10-a"), ready(11, "11-a"), ready(10, "10-b")], 10, 8);

    let mut kept = retained.to_vec();
    kept.sort();
    assert_eq!(kept, vec!["10-a".to_owned(), "10-b".to_owned()]);
}

#[test]
fn files_unused_the_longest_leave_first() {
    let summary = prune(
        vec![
            file("new", 40, 30, false),
            file("old", 40, 10, false),
            file("middle", 40, 20, false),
        ],
        100,
    );
    assert_eq!(summary.removed_paths, vec!["/cache/old".to_owned()]);
    assert_eq!(summary.target_bytes, 90);
    assert_eq!(summary.bytes_after, 80);
    assert_eq!(summary.bytes_removed, 40);
    assert_eq!(summary.files_seen, 3);
}

#[test]
fn small_caches_are_left_alone() {
    let summary = prune(vec![file("a", 10, 0, false), file("b", 10, 0, false)], 20);
    assert_eq!(summary.files_removed, 0);
    assert_eq!(summary.bytes_after, 20);
}

#[test]
fn files_that_cannot_be_removed_are_passed_over() {
    let mut run =
        begin_prune(vec![file("a", 10, 0, false), file("b", 10, 0, false), file("c", 10, 0, false)], 20);
    assert_eq!(run.next_victim().map(|at| run.entries[at].path.clone()), Some("/cache/a".to_owned()));
    run.note(false);
    run.note(true);
    run.note(true);
    assert!(run.next_victim().is_none());
    assert_eq!(run.summary.bytes_after, 10);
    assert_eq!(run.summary.removed_paths, vec!["/cache/b".to_owned(), "/cache/c".to_owned()]);
}

#[test]
fn protected_files_leave_when_nothing_else_is_left() {
    let summary = prune(vec![file("live", 50, 0, true), file("dead", 10, 9, false)], 20);
    assert_eq!(summary.removed_paths, vec!["/cache/dead".to_owned(), "/cache/live".to_owned()]);
    assert_eq!(summary.bytes_after, 0);
}

#[test]
fn a_cache_is_emptied_to_nine_tenths() {
    assert_eq!(prune_target_bytes(20), 18);
    assert_eq!(prune_target_bytes(0), 0);
    assert_eq!(prune_target_bytes(1), 0);
    assert_eq!(prune_target_bytes(u64::MAX), u64::MAX / 10);
}

#[test]
fn temporary_files_are_known_by_their_names() {
    assert!(is_active_cache_temp("/cache/.tmp-active"));
    assert!(is_active_cache_temp("/cache/image.TMP"));
    assert!(!is_active_cache_temp("/cache/.tmpdir/image.jxl"));
    assert!(!is_active_cache_temp("/cache/tmp"));
    assert!(!is_active_cache_temp(""));
}

#[test]
fn sizes_and_pauses_come_from_the_environment() {
    assert_eq!(u64_setting(Some(" 42\n"), 7), 42);
    assert_eq!(u64_setting(Some("-1"), 7), 7);
    assert_eq!(u64_setting(Some("many"), 7), 7);
    assert_eq!(u64_setting(None, 7), 7);
    assert_eq!(cache_prune_interval_seconds(None), 60);
    assert_eq!(cache_prune_interval_seconds(Some("1")), 10);
    assert_eq!(cache_prune_interval_seconds(Some("3600")), 3600);
    assert_eq!(cache_prune_interval_seconds(Some("18446744073709551615")), 300);
}

#[test]
fn retention_never_keeps_more_than_the_limit() {
    let paths = vec![ready(1, "a"), ready(1, "b"), ready(1, "c"), ready(2, "d")];
    let in_turn = round_robin_retention_paths(&paths, 3);
    let mut kept = in_turn.to_vec();
    kept.sort();
    assert_eq!(kept, vec!["a".to_owned(), "b".to_owned(), "d".to_owned()]);
    assert_eq!(lock_retention_paths(&paths, 1, 2).len(), 2);
    assert_eq!(round_robin_retention_paths(&paths, 0).len(), 0);
    assert_eq!(round_robin_retention_paths(&paths, 99).len(), 4);
}

#[test]
fn retention_follows_the_lock_of_the_source() {
    let lock = SessionSubsourceLock { source_key: "4chan:s".to_owned(), stream_id: 10 };
    let counts = StreamCounts { live_items: 5, ready_items: 1 };
    assert_eq!(
        retention_of(&board("s"), 3, Some(&lock), Some(counts), 24, 12),
        Retention::Locked { stream_id: 10, limit: 5 }
    );
    assert_eq!(
        retention_of(&board("s"), 3, Some(&lock), None, 24, 12),
        Retention::Locked { stream_id: 10, limit: 24 }
    );
    assert_eq!(
        retention_of(&board("wg"), 3, Some(&lock), Some(counts), 24, 12),
        Retention::InTurn { limit: 12 }
    );
    assert_eq!(retention_of(&board("s"), 0, Some(&lock), None, 24, 12), Retention::Nothing);
    assert_eq!(retention_of(&directory("/images"), 3, None, None, 24, 12), Retention::Nothing);
}

#[test]
fn sources_shown_lately_keep_more() {
    let profile = ReadyTargetProfile::for_remote();
    assert_eq!(remote_source_retention_limit(profile, 128, true), 12);
    assert_eq!(remote_source_retention_limit(profile, 2, true), 6);
    assert_eq!(remote_source_retention_limit(profile, 0, true), 3);
    assert_eq!(remote_source_retention_limit(profile, 128, false), 3);
}
