use picmash::arena::{LockExhaustionPolicy, Presence};
use picmash::config::ImportPolicy;
use picmash::model::{ArenaHandle, AssetId, RemoteItemId, VisualKey};
use picmash::remote_pick::{
    candidates_from_locked_stream, candidates_from_source, enshrined_as, extension_or_fallback,
    fresh_candidates_from_locked_stream, import_name, is_file_address, largest_face,
    offers_of_locked_stream, oldest_rank, prune_unmaterialized_remote_candidates,
    remote_summary_source, repeats_can_be_left_out, sanitize_source_key,
    source_recent_exclude_window, vote_remote_duel, weighted_sources, ExternalEventKind,
    ForeignRemoteWinner, ProbeFace, RemoteCandidate, RemoteDuelOutcome, RemoteSummarySource,
};
use picmash::duel::QualityFormalVersion;
use picmash::scalar::Scalar;
use picmash::textset::TextSet;

fn scalar(value: f32) -> Scalar {
    Scalar { bits: value.to_bits() }
}

fn candidate(item: i64, stream_id: i64, look: Option<&str>) -> RemoteCandidate {
    RemoteCandidate {
        item_id: RemoteItemId(item),
        stream_id,
        visual_key: look.map(|key| VisualKey(key.to_owned())),
        file_exists: true,
    }
}

fn texts(items: &[&str]) -> TextSet {
    let mut set = TextSet::new();
    for item in items {
        set.insert((*item).to_owned());
    }
    set
}

#[test]
fn images_without_a_file_are_left_out() {
    let mut candidates = vec![candidate(1, 1, None), candidate(2, 1, None), candidate(1, 2, None)];
    candidates[2].file_exists = false;
    assert_eq!(prune_unmaterialized_remote_candidates(&candidates), vec![1]);
}

#[test]
fn threads_shown_lately_are_left_out_while_there_are_others() {
    let candidates = vec![
        candidate(1, 10, None),
        candidate(2, 11, Some("k")),
        candidate(3, 12, None),
        candidate(4, 13, None),
    ];
    let none = TextSet::new();
    assert_eq!(candidates_from_source(&candidates, &none, None, &vec![10, 12]), vec![1, 3]);
    assert_eq!(
        candidates_from_source(&candidates, &none, None, &vec![10, 11, 12, 13]),
        vec![0, 1, 2, 3]
    );
    assert_eq!(
        candidates_from_source(&candidates, &texts(&["k"]), None, &vec![]),
        vec![0, 2, 3]
    );
    let shown = vec![RemoteItemId(3)];
    assert_eq!(candidates_from_source(&candidates, &none, Some(&shown), &vec![]), vec![0, 1, 3]);
}

#[test]
fn a_locked_thread_offers_what_it_has() {
    let candidates = vec![
        candidate(1, 10, Some("k")),
        candidate(2, 10, None),
        candidate(3, 11, None),
        candidate(4, 10, None),
    ];
    let none = TextSet::new();
    assert_eq!(candidates_from_locked_stream(&candidates, 10, &none, &vec![]), vec![0, 1, 3]);
    assert_eq!(
        candidates_from_locked_stream(&candidates, 10, &texts(&["k"]), &vec![RemoteItemId(2)]),
        vec![3]
    );
    let all = vec![RemoteItemId(1), RemoteItemId(2), RemoteItemId(4)];
    assert_eq!(candidates_from_locked_stream(&candidates, 10, &none, &all), vec![0, 1, 3]);
    let lone = vec![candidate(1, 10, Some("k"))];
    assert_eq!(
        candidates_from_locked_stream(&lone, 10, &texts(&["k"]), &vec![RemoteItemId(1)]),
        vec![0]
    );
    assert!(candidates_from_locked_stream(&candidates, 99, &none, &vec![]).is_empty());
}

#[test]
fn looking_ahead_in_a_locked_thread_offers_only_what_is_fresh() {
    let mut candidates = vec![
        candidate(1, 10, Some("k")),
        candidate(2, 10, None),
        candidate(3, 11, None),
        candidate(4, 10, None),
        candidate(5, 10, None),
    ];
    candidates[4].file_exists = false;
    let none = TextSet::new();
    let fresh = fresh_candidates_from_locked_stream;
    assert_eq!(fresh(&candidates, 10, &none, &vec![]), vec![0, 1, 3]);
    assert_eq!(fresh(&candidates, 10, &texts(&["k"]), &vec![RemoteItemId(2)]), vec![3]);
    let all = vec![RemoteItemId(1), RemoteItemId(2), RemoteItemId(4)];
    assert!(fresh(&candidates, 10, &none, &all).is_empty());
    assert!(fresh(&candidates, 99, &none, &vec![]).is_empty());

    let lone = vec![candidate(1, 10, Some("k"))];
    let shown = vec![RemoteItemId(1)];
    let (ahead, retry) = (LockExhaustionPolicy::PreserveAndStop, LockExhaustionPolicy::ClearAndRetry);
    assert!(offers_of_locked_stream(ahead, &lone, 10, &none, &shown).is_empty());
    assert!(offers_of_locked_stream(ahead, &lone, 10, &texts(&["k"]), &vec![]).is_empty());
    assert_eq!(offers_of_locked_stream(ahead, &lone, 10, &none, &vec![]), vec![0]);
    assert_eq!(offers_of_locked_stream(retry, &lone, 10, &texts(&["k"]), &shown), vec![0]);
}

#[test]
fn ranks_windows_and_weights() {
    assert_eq!(oldest_rank(&vec![5, 6, 5, 7], 5), Some(3));
    assert_eq!(oldest_rank(&vec![5, 6, 5, 7], 7), Some(0));
    assert_eq!(oldest_rank(&vec![], 7), None);
    assert!(repeats_can_be_left_out(&vec![10, 5], 14));
    assert!(!repeats_can_be_left_out(&vec![10, 4], 14));
    assert!(repeats_can_be_left_out(&vec![usize::MAX, usize::MAX], 14));
    assert_eq!(
        weighted_sources(&vec![scalar(0.0), scalar(1.0), scalar(-1.0), scalar(f32::NAN), scalar(0.1)]),
        vec![1, 4]
    );
    assert_eq!(source_recent_exclude_window(0), 1);
    assert_eq!(source_recent_exclude_window(4), 4);
    assert_eq!(source_recent_exclude_window(40), 6);
}

#[test]
fn outside_images_that_win_are_taken_in() {
    let there = Some(Presence { hidden: false, file_exists: true });
    let gone = Some(Presence { hidden: false, file_exists: false });
    let a = AssetId("a".to_owned());
    let local = ArenaHandle::Local(AssetId("a".to_owned()));
    let item = RemoteItemId(4);
    let remote = ArenaHandle::Remote(item);
    let vote = |local_seen, policy, winner: &ArenaHandle| {
        vote_remote_duel(local_seen, there, policy, &a, item, winner)
    };
    assert_eq!(
        vote(there, Some(ImportPolicy::Hearted), &remote),
        Ok(RemoteDuelOutcome::QueueImport(ExternalEventKind::RemoteWin))
    );
    assert_eq!(
        vote(there, Some(ImportPolicy::Hearted), &local),
        Ok(RemoteDuelOutcome::Record(ExternalEventKind::LocalWin))
    );
    assert_eq!(
        vote(there, Some(ImportPolicy::NotX), &local),
        Ok(RemoteDuelOutcome::QueueImport(ExternalEventKind::LocalWin))
    );
    assert_eq!(
        vote(there, None, &local),
        Ok(RemoteDuelOutcome::QueueImport(ExternalEventKind::LocalWin))
    );
    assert_eq!(vote(gone, None, &local), Ok(RemoteDuelOutcome::Ignored));
    assert_eq!(vote(None, None, &local), Ok(RemoteDuelOutcome::Ignored));
    assert_eq!(
        vote(there, None, &ArenaHandle::Remote(RemoteItemId(5))),
        Err(ForeignRemoteWinner)
    );
    assert_eq!(
        ForeignRemoteWinner.message(),
        "remote duel winner is not one of the compared assets"
    );
    assert_eq!(enshrined_as(true), ExternalEventKind::Hearted);
    assert_eq!(enshrined_as(false), ExternalEventKind::Kept);
}

#[test]
fn imported_files_are_named_after_their_post() {
    assert_eq!(sanitize_source_key("4chan:s"), "4chan-s");
    assert_eq!(extension_or_fallback("/a/b.PNG"), "png");
    assert_eq!(extension_or_fallback("/a/b"), "img");
    assert_eq!(extension_or_fallback("/a/b."), "img");
    assert_eq!(import_name(12, 34, "jxl"), "12-34.jxl");
    assert!(is_file_address("file:///a"));
    assert!(!is_file_address("https://a"));
}

#[test]
fn the_largest_face_counts() {
    let face = |side: f32, area: f32, confidence: f32| ProbeFace {
        width: scalar(side),
        height: scalar(side),
        area: scalar(area),
        confidence: scalar(confidence),
        tombstoned: false,
    };
    let mut faces = vec![
        face(100.0, 10_000.0, 0.5),
        face(120.0, 14_400.0, 0.5),
        face(120.0, 14_400.0, 0.9),
        face(20.0, 400.0, 1.0),
    ];
    assert_eq!(largest_face(&faces, scalar(80.0)), Some(2));
    faces[2].tombstoned = true;
    assert_eq!(largest_face(&faces, scalar(80.0)), Some(1));
    assert_eq!(largest_face(&faces, scalar(130.0)), None);
    assert_eq!(largest_face(&vec![face(0.0, 0.0, 1.0)], scalar(0.0)), None);
}

#[test]
fn summaries_come_from_the_cache_where_there_is_one() {
    let gaussian = QualityFormalVersion::HierarchicalGaussianV1;
    let v3 = QualityFormalVersion::HierarchicalPerturbativeV3;
    assert_eq!(
        remote_summary_source(gaussian, true, true, None, false),
        RemoteSummarySource::HierarchicalCache
    );
    assert_eq!(
        remote_summary_source(v3, true, true, None, false),
        RemoteSummarySource::PerturbativeCache
    );
    assert_eq!(
        remote_summary_source(v3, false, true, None, false),
        RemoteSummarySource::Baseline
    );
    assert_eq!(
        remote_summary_source(gaussian, true, false, None, true),
        RemoteSummarySource::HierarchicalPrior { technical: false, vibe: false }
    );
}
