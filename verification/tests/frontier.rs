use std::collections::HashMap;

use picmash::config::{
    FourChanBoardSource, FourChanContentConfig, FourChanHarvestConfig, ImportPolicy,
    LocalDirectorySource, RemoteImageFilterConfig, SourceConfig, UpstreamSource,
};
use picmash::ready_frontier::{
    ReadyTargetProfile, SourceReadyFrontier, REMOTE_SOURCE_RECENT_READY_CAP,
};
use picmash::scalar::Scalar;

fn scalar(value: f32) -> Scalar {
    Scalar { bits: value.to_bits() }
}

fn local_source() -> SourceConfig {
    SourceConfig {
        weight: scalar(1.0),
        import_policy: ImportPolicy::NotX,
        scan_interval_seconds: 60,
        upstream: UpstreamSource::LocalDirectory(LocalDirectorySource {
            root: "/tmp/picmash-local-remote".to_owned(),
            recurse: true,
            filters: RemoteImageFilterConfig::default(),
        }),
    }
}

fn board_source() -> SourceConfig {
    SourceConfig {
        weight: scalar(1.0),
        import_policy: ImportPolicy::NotX,
        scan_interval_seconds: 60,
        upstream: UpstreamSource::FourChanBoard(FourChanBoardSource {
            board: "s".to_owned(),
            content: FourChanContentConfig::default(),
            harvest: FourChanHarvestConfig::default(),
            filters: RemoteImageFilterConfig::default(),
        }),
    }
}

#[test]
fn remote_ready_frontier_has_hard_cap() {
    let frontier =
        SourceReadyFrontier::new(96, HashMap::new(), 512, ReadyTargetProfile::for_remote());
    assert!(frontier.source_saturated());
}

#[test]
fn wanted_images_stay_within_bounds() {
    let roomy = ReadyTargetProfile { per_stream: 3, cap: 10 };
    let wanted: Vec<usize> = (0..6).map(|streams| roomy.target_total(streams)).collect();
    assert_eq!(wanted, vec![3, 3, 6, 9, 10, 10]);
    let tight = ReadyTargetProfile { per_stream: 5, cap: 2 };
    assert_eq!(tight.target_total(0), 5);
    assert_eq!(tight.target_total(9), 5);
}

#[test]
fn ready_frontier_saturates_streams_independently() {
    let mut frontier =
        SourceReadyFrontier::new(0, HashMap::new(), 32, ReadyTargetProfile::for_remote());
    assert!(!frontier.stream_saturated(42));
    frontier.note_ready(42);
    frontier.note_ready(42);
    assert!(!frontier.stream_saturated(42));
    frontier.note_ready(42);
    assert!(frontier.stream_saturated(42));
}

#[test]
fn recent_remote_retention_cap_stays_above_idle_floor() {
    let profile = ReadyTargetProfile::for_remote();
    assert_eq!(
        profile
            .target_total(128)
            .min(REMOTE_SOURCE_RECENT_READY_CAP)
            .max(profile.idle_floor()),
        REMOTE_SOURCE_RECENT_READY_CAP
    );
}

#[test]
fn targets_grow_with_the_streams_up_to_the_cap() {
    let remote = ReadyTargetProfile::for_remote();
    assert_eq!(remote.target_total(0), 3);
    assert_eq!(remote.target_total(1), 3);
    assert_eq!(remote.target_total(10), 30);
    assert_eq!(remote.target_total(32), 96);
    assert_eq!(remote.target_total(usize::MAX), 96);
    let local = ReadyTargetProfile::for_source(&local_source());
    assert_eq!((local.per_stream, local.cap), (8, 64));
    let board = ReadyTargetProfile::for_source(&board_source());
    assert_eq!((board.per_stream, board.cap), (3, 96));
    assert_eq!(remote.capped(12).target_total(128), 12);
}

#[test]
fn streams_are_counted_each_for_itself() {
    let mut ready: HashMap<i64, usize> = HashMap::new();
    ready.insert(7, 2);
    let mut frontier = SourceReadyFrontier::new(2, ready, 2, ReadyTargetProfile::for_remote());
    frontier.note_ready(9);
    assert_eq!(frontier.ready_in_stream(7), 2);
    assert_eq!(frontier.ready_in_stream(9), 1);
    assert_eq!(frontier.ready_in_stream(11), 0);
    assert_eq!(frontier.total_ready, 3);
    frontier.note_ready(7);
    assert!(frontier.stream_saturated(7));
    assert!(!frontier.stream_saturated(9));
    assert_eq!(frontier.ready_in_stream(9), 1);
    assert!(frontier.source_idle_warm());
    assert!(!frontier.source_saturated());
}
