use std::collections::HashMap;

use picmash::config::{
    FourChanBoardSource, FourChanContentConfig, FourChanHarvestConfig, ImportPolicy,
    RemoteImageFilterConfig, SourceConfig, UpstreamSource,
};
use picmash::harvest::{
    chunk_plan, live_post_nos, live_thread_nos, locked_source_needs_refresh,
    locked_stream_ready_target, locked_stream_should_hold_lock, locked_target,
    missing_mapping_message, refresh_still_wanted, remote_source_materialization_profile,
    remote_source_scan_can_rest, shown_thread_needs_refresh, stream_is_hungry, warm_outcome, warm_source, warm_steps,
    HarvestAction, HarvestPass, HarvestRun, HarvestStream, ScanFacts, StreamCounts, StreamOutcome,
    WarmNeeds, WarmOutcome, WarmRun, WarmSource, WarmStep,
};
use picmash::model::SessionSubsourceLock;
use picmash::ready_frontier::{ReadyTargetProfile, SourceReadyFrontier};
use picmash::scalar::Scalar;

fn board() -> SourceConfig {
    SourceConfig {
        weight: Scalar { bits: 1.0f32.to_bits() },
        import_policy: ImportPolicy::NotX,
        scan_interval_seconds: 60,
        upstream: UpstreamSource::FourChanBoard(FourChanBoardSource {
            board: "s".to_owned(),
            content: FourChanContentConfig::default(),
            harvest: FourChanHarvestConfig::default(),
            filters: RemoteImageFilterConfig::default(),
        }),
    }
}

fn lock(source_key: &str, stream_id: i64) -> SessionSubsourceLock {
    SessionSubsourceLock { source_key: source_key.to_owned(), stream_id }
}

fn empty_frontier(streams: usize) -> SourceReadyFrontier {
    SourceReadyFrontier::new(0, HashMap::new(), streams, ReadyTargetProfile::for_remote())
}

const NEEDS: WarmNeeds = WarmNeeds {
    already_ready: false,
    inline_work: true,
    materialization: true,
    identity: true,
    quality_features: true,
    embedding: true,
    clip_embedding: true,
    face_embedding: true,
};

#[test]
fn streams_are_written_in_portions() {
    assert_eq!(chunk_plan(&vec![1; 20]), vec![(0, 8), (8, 16), (16, 20)]);
    assert_eq!(chunk_plan(&vec![300, 200, 13, 1]), vec![(0, 2), (2, 4)]);
    assert_eq!(chunk_plan(&vec![600, 600]), vec![(0, 1), (1, 2)]);
    assert_eq!(chunk_plan(&vec![]), vec![]);
}

#[test]
fn a_harvest_writes_then_looks_at_every_open_image() {
    let mut run = HarvestRun::begin(vec![2, 3, 1], empty_frontier(3));
    assert_eq!(run.next_action(), HarvestAction::Write { from: 0, to: 3 });
    run.note_written(3, &vec![
        StreamOutcome { stream_id: 10, blocked: false },
        StreamOutcome { stream_id: 11, blocked: true },
        StreamOutcome { stream_id: 12, blocked: false },
    ]);
    let mut seen = Vec::new();
    while let HarvestAction::Visit { stream, item, stream_id } = run.next_action() {
        seen.push((stream, item, stream_id));
        run.note_visited(Some(WarmOutcome { became_ready: true, needs_face_backfill: item == 1 }));
    }
    assert_eq!(seen, vec![(0, 0, 10), (0, 1, 10), (2, 0, 12)]);
    assert_eq!(run.next_action(), HarvestAction::Finish { face_backfill: true });
    assert_eq!(run.pass.frontier.total_ready, 3);
    assert_eq!(run.pass.frontier.ready_in_stream(10), 2);
}

#[test]
fn streams_for_which_nothing_came_back_are_passed_over() {
    let mut run = HarvestRun::begin(vec![1, 2, 1], empty_frontier(3));
    run.note_written(3, &vec![StreamOutcome { stream_id: 10, blocked: false }]);
    assert_eq!(run.next_action(), HarvestAction::Visit { stream: 0, item: 0, stream_id: 10 });
    run.note_visited(None);
    assert_eq!(run.next_action(), HarvestAction::Finish { face_backfill: false });

    let mut run = HarvestRun::begin(vec![1], empty_frontier(1));
    let outcome = StreamOutcome { stream_id: 10, blocked: true };
    run.note_written(1, &vec![outcome, outcome]);
    assert_eq!(run.next_action(), HarvestAction::Finish { face_backfill: false });
}

#[test]
fn shown_threads_are_refreshed_where_they_are_locked_and_short() {
    let few = StreamCounts { live_items: 20, ready_items: 3 };
    let full = StreamCounts { live_items: 3, ready_items: 3 };
    let held = lock("4chan:s", 4);
    assert!(shown_thread_needs_refresh(Some(&held), "4chan:s", 4, Some(few), 24));
    assert!(!shown_thread_needs_refresh(Some(&held), "4chan:s", 4, Some(full), 24));
    assert!(!shown_thread_needs_refresh(Some(&held), "4chan:s", 4, None, 24));
    assert!(!shown_thread_needs_refresh(Some(&held), "4chan:s", 5, Some(few), 24));
    assert!(!shown_thread_needs_refresh(Some(&held), "4chan:wg", 4, Some(few), 24));
    assert!(!shown_thread_needs_refresh(None, "4chan:s", 4, Some(few), 24));
}

#[test]
fn what_is_live_is_listed_in_order() {
    let streams = vec![
        HarvestStream { thread_no: 7, post_nos: vec![1, 2] },
        HarvestStream { thread_no: 5, post_nos: vec![3] },
    ];
    assert_eq!(live_post_nos(&streams), vec![1, 2, 3]);
    assert_eq!(live_thread_nos(&streams), vec![7, 5]);
    assert_eq!(
        missing_mapping_message("4chan:s", 9),
        "missing upserted external item mapping source=4chan:s post_no=9"
    );
}

#[test]
fn locked_threads_are_refilled_up_to_what_they_have() {
    assert_eq!(locked_stream_ready_target(5, 24), 5);
    assert_eq!(locked_stream_ready_target(50, 24), 24);
    let few = StreamCounts { live_items: 20, ready_items: 3 };
    let full = StreamCounts { live_items: 3, ready_items: 3 };
    assert!(stream_is_hungry(few, 24));
    assert!(!stream_is_hungry(full, 24));
    assert!(!stream_is_hungry(few, 3));
    let held = lock("4chan:s", 4);
    assert!(locked_source_needs_refresh(Some(&held), "4chan:s", None, 24));
    assert!(locked_source_needs_refresh(Some(&held), "4chan:s", Some(few), 24));
    assert!(!locked_source_needs_refresh(Some(&held), "4chan:wg", None, 24));
    assert!(!locked_source_needs_refresh(None, "4chan:s", None, 24));
    assert!(locked_stream_should_hold_lock(Some(60), None, false));
    assert!(!locked_stream_should_hold_lock(Some(0), None, true));
    assert!(locked_stream_should_hold_lock(Some(0), Some(few), false));
    assert!(!locked_stream_should_hold_lock(Some(60), Some(full), false));
    assert!(locked_stream_should_hold_lock(Some(60), Some(full), true));
    assert!(!locked_stream_should_hold_lock(None, Some(few), true));
    assert!(refresh_still_wanted(Some(&held), &lock("4chan:s", 4)));
    assert!(!refresh_still_wanted(Some(&held), &lock("4chan:s", 5)));
    assert!(!refresh_still_wanted(None, &held));
    assert_eq!(locked_target(Some(&held), "4chan:s", 4, 9, 24), Some(9));
    assert_eq!(locked_target(Some(&held), "4chan:s", 5, 9, 24), None);
}

#[test]
fn refills_stop_when_enough_is_ready() {
    let counts = Some(StreamCounts { live_items: 4, ready_items: 2 });
    let mut run = WarmRun::begin(counts, 24).expect("hungry");
    assert!(run.wants_more());
    run.note(WarmOutcome { became_ready: false, needs_face_backfill: true });
    assert!(!run.found_any());
    run.note(WarmOutcome { became_ready: true, needs_face_backfill: false });
    run.note(WarmOutcome { became_ready: true, needs_face_backfill: false });
    assert!(!run.wants_more());
    assert!(run.found_any());
    assert!(run.needs_face_backfill);
    assert!(WarmRun::begin(counts, 2).is_none());
    assert!(WarmRun::begin(None, 24).is_none());
}

#[test]
fn images_are_warmed_by_what_they_need() {
    assert_eq!(
        warm_steps(NEEDS, true),
        vec![
            WarmStep::ReadBytes,
            WarmStep::Identity,
            WarmStep::QualityFeatures,
            WarmStep::Embedding,
            WarmStep::ClipEmbedding,
        ]
    );
    assert!(warm_steps(NEEDS, false).is_empty());
    let path_only = WarmNeeds { inline_work: false, identity: false, ..NEEDS };
    assert_eq!(warm_steps(path_only, true), vec![WarmStep::SavePath]);
    let ready = WarmNeeds { already_ready: true, inline_work: false, ..NEEDS };
    assert_eq!(warm_source(ready, true, Some(true), false), WarmSource::Nowhere);
    assert_eq!(warm_source(ready, false, Some(true), false), WarmSource::Named);
    assert_eq!(warm_source(NEEDS, true, Some(false), true), WarmSource::Nowhere);
    assert_eq!(warm_source(NEEDS, true, Some(false), false), WarmSource::Fetched);
    assert_eq!(warm_source(NEEDS, true, None, true), WarmSource::Fetched);
    let outcome = warm_outcome(NEEDS, true, true);
    assert!(outcome.became_ready && outcome.needs_face_backfill);
    assert!(!warm_outcome(ready, true, true).became_ready);
    assert!(!warm_outcome(NEEDS, false, true).became_ready);
}

#[test]
fn saturated_sources_want_only_what_is_ready() {
    let mut ready: HashMap<i64, usize> = HashMap::new();
    ready.insert(10, 3);
    let frontier = SourceReadyFrontier::new(3, ready, 1, ReadyTargetProfile::for_remote());
    let mut pass = HarvestPass::begin(frontier);
    assert!(!pass.wants(10, false, false, false, None));
    assert!(pass.wants(10, false, false, true, None));
    assert!(!pass.wants(10, true, false, true, None));
    assert!(!pass.wants(10, false, true, true, None));
    assert!(pass.wants(11, false, false, false, None));
    assert!(pass.wants(10, false, false, false, Some(4)));
    pass.note(10, WarmOutcome { became_ready: true, needs_face_backfill: false });
    assert!(!pass.wants(10, false, false, false, Some(4)));
}

#[test]
fn sources_out_of_use_rest() {
    let facts = ScanFacts {
        lock_hungry: false,
        active_streams: 2,
        recently_selected: false,
        total_ready: 3,
        backoff_over: true,
    };
    assert!(remote_source_scan_can_rest(&board(), facts));
    assert!(!remote_source_scan_can_rest(&board(), ScanFacts { recently_selected: true, ..facts }));
    assert!(!remote_source_scan_can_rest(&board(), ScanFacts { lock_hungry: true, ..facts }));
    assert!(!remote_source_scan_can_rest(&board(), ScanFacts { active_streams: 0, ..facts }));
    let empty = ScanFacts { total_ready: 0, ..facts };
    assert!(!remote_source_scan_can_rest(&board(), empty));
    assert!(remote_source_scan_can_rest(&board(), ScanFacts { backoff_over: false, ..empty }));
    assert_eq!(remote_source_materialization_profile(&board(), true).cap, 12);
    assert_eq!(remote_source_materialization_profile(&board(), false).cap, 3);
}
