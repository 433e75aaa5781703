use picmash::arena::Presence;
use picmash::asset_domain::AssetDomainLabel;
use picmash::facemash::{
    best_score, face_crop_name, face_source_is_live, facemash_hide_face, facemash_pair, facemash_pair_by_ids,
    facemash_target, facemash_vote, model_guided, pairings, retrain_due, rotation_quadrant,
    shortlist, topness_ranks, viable_identities, FaceFacts, FaceOrigin, FacemashFace, FacemashIdentityArena,
    FacemashPairKey, FacemashRecents, FacemashVoteError, FACEMASH_RECENT_FACE_EXCLUDE,
    FACEMASH_RECENT_PAIR_EXCLUDE,
};
use picmash::model::{FaceId, FaceIdentityId};
use picmash::scalar::Scalar;

fn scalar(value: f32) -> Scalar {
    Scalar { bits: value.to_bits() }
}

fn face(id: i64, is_local: bool, confidence: f32) -> FacemashFace {
    FacemashFace { id: FaceId(id), is_local, confidence: scalar(confidence), domain: None }
}

fn subject(id: i64, faces: Vec<FacemashFace>) -> FacemashIdentityArena {
    FacemashIdentityArena { identity_id: FaceIdentityId(id), faces }
}

fn subjects(ids: &[i64]) -> Vec<FaceIdentityId> {
    ids.iter().map(|id| FaceIdentityId(*id)).collect()
}

#[test]
fn only_faces_of_the_collection_are_compared() {
    let viable = viable_identities(&vec![
        subject(1, vec![face(10, false, 0.9), face(11, true, 0.5)]),
        subject(2, vec![face(20, false, 0.9)]),
        subject(3, vec![face(30, true, 0.7)]),
    ]);
    let ids: Vec<i64> = viable.iter().map(|arena| arena.identity_id.0).collect();
    assert_eq!(ids, vec![1, 3]);
    assert_eq!(viable[0].faces.len(), 1);
    assert_eq!(viable[0].faces[0].id, FaceId(11));
}

#[test]
fn faces_shown_lately_give_way() {
    let arena = subject(1, vec![face(10, true, 0.9), face(11, true, 0.8), face(12, true, 0.8)]);
    let fresh = arena.representative_face(&vec![]).expect("face");
    assert_eq!(fresh.id, FaceId(10));
    let other = arena.representative_face(&vec![FaceId(10)]).expect("face");
    assert_ne!(other.id, FaceId(10));
    assert!(subject(2, vec![]).representative_face(&vec![]).is_none());
}

#[test]
fn pairs_have_no_sides_in_memory() {
    let (a, b) = (FaceIdentityId(4), FaceIdentityId(2));
    assert_eq!(FacemashPairKey::forge(a, b), FacemashPairKey::forge(b, a));
    let mut recent = FacemashRecents::new();
    recent.remember_facemash_pair(FaceId(40), a, FaceId(20), b);
    assert_eq!(recent.facemash_recent_pair_rank(a, b), Some(0));
    assert_eq!(recent.facemash_recent_pair_rank(b, a), Some(0));
    assert_eq!(recent.facemash_recent_identity_rank(b), Some(0));
    assert_eq!(recent.facemash_recent_identity_rank(a), Some(1));
    assert_eq!(recent.facemash_recent_face_rank(FaceId(40)), Some(1));
    assert_eq!(recent.facemash_recent_face_rank(FaceId(41)), None);
    for index in 0..100 {
        recent.remember_facemash_pair(
            FaceId(1000 + index),
            FaceIdentityId(1000 + index),
            FaceId(2000 + index),
            FaceIdentityId(2000 + index),
        );
    }
    assert_eq!(recent.pairs.len(), FACEMASH_RECENT_PAIR_EXCLUDE);
    assert_eq!(recent.identities.len(), FACEMASH_RECENT_FACE_EXCLUDE);
    assert_eq!(recent.faces.len(), FACEMASH_RECENT_FACE_EXCLUDE);
    assert_eq!(recent.facemash_recent_pair_rank(a, b), None);
}

#[test]
fn ranks_rise_with_the_signal() {
    let ids = subjects(&[3, 1, 2]);
    assert_eq!(
        topness_ranks(&vec![scalar(0.5), scalar(-0.5), scalar(0.1)], &ids),
        vec![2, 0, 1]
    );
    assert!(model_guided(&vec![true, true, false]));
    assert!(!model_guided(&vec![false, false, true]));
}

#[test]
fn the_shortlist_holds_telling_and_rarely_shown_subjects() {
    let ids: Vec<FaceIdentityId> = (0..80).map(FaceIdentityId).collect();
    let rising: Vec<Scalar> = (0..80).map(|index| scalar(index as f32)).collect();
    let falling: Vec<Scalar> = (0..80).map(|index| scalar(-(index as f32))).collect();
    let low: Vec<Scalar> = (0..80).map(|_| scalar(0.1)).collect();
    let short = shortlist(&ids, &rising, &falling, &low, false);
    assert_eq!(short.len(), 32 + 24);
    assert!(short.contains(&79) && short.contains(&0) && !short.contains(&40));
    let guided = shortlist(&ids, &rising, &falling, &low, true);
    assert_eq!(guided.len(), 32);
    assert!(!guided.contains(&0));
}

#[test]
fn labels_keep_subjects_apart() {
    let domains = vec![Some(AssetDomainLabel::Real), None, Some(AssetDomainLabel::Anime)];
    assert_eq!(pairings(&vec![0, 1, 2], &domains), vec![(0, 1), (1, 2)]);
}

#[test]
fn the_first_of_the_largest_scores_wins() {
    assert_eq!(best_score(&vec![scalar(0.1), scalar(0.9), scalar(0.9)]), Some(1));
    assert_eq!(best_score(&vec![]), None);
}

#[test]
fn the_best_pair_is_shown_and_remembered() {
    let viable = vec![
        subject(1, vec![face(10, true, 0.9)]),
        subject(2, vec![face(20, true, 0.9)]),
        subject(3, vec![face(30, true, 0.9)]),
    ];
    let mut recent = FacemashRecents::new();
    let chosen = facemash_pair(
        &viable,
        &vec![(0, 1), (1, 2)],
        &vec![scalar(0.1), scalar(0.2)],
        &mut recent,
    );
    let (left, right) = chosen.expect("pair");
    assert_eq!((left.id, right.id), (FaceId(20), FaceId(30)));
    assert_eq!(recent.facemash_recent_pair_rank(FaceIdentityId(2), FaceIdentityId(3)), Some(0));
    assert!(facemash_pair(&viable, &vec![], &vec![], &mut recent).is_none());
    assert_eq!(recent.pairs.len(), 1);
    assert_eq!(facemash_target(Some((FaceId(2), FaceId(3)))).href(), "/facemash/2/3");
    assert_eq!(facemash_target(None).href(), "/facemash");
}

#[test]
fn votes_need_two_faces_of_the_detector_in_use() {
    let vote = |live, winner, loser| facemash_vote(live, FaceId(1), winner, FaceId(2), loser);
    assert_eq!(vote(true, Some(true), Some(true)), Ok(true));
    assert_eq!(vote(false, None, None), Ok(false));
    let missing = vote(true, None, Some(true)).unwrap_err();
    assert_eq!(missing, FacemashVoteError::MissingFace { face_id: FaceId(1) });
    assert_eq!(missing.message(), "missing face 1");
    assert_eq!(
        vote(true, Some(true), None).unwrap_err(),
        FacemashVoteError::MissingFace { face_id: FaceId(2) }
    );
    assert_eq!(
        vote(true, Some(true), Some(false)).unwrap_err().message(),
        "facemash vote targets stale detector geometry"
    );
    assert!(retrain_due(0) && retrain_due(20) && !retrain_due(21));
    assert!(facemash_hide_face(Some(true)));
    assert!(!facemash_hide_face(Some(false)) && !facemash_hide_face(None));
}

#[test]
fn asked_for_faces_are_compared_where_they_can_be() {
    let facts = |id: i64, subject: i64| FaceFacts {
        id: FaceId(id),
        identity_id: FaceIdentityId(subject),
        current_detector: true,
        is_local: true,
        usable: true,
        live: true,
        domain: None,
    };
    assert!(facemash_pair_by_ids(Some(facts(1, 1)), Some(facts(2, 2))));
    assert!(!facemash_pair_by_ids(Some(facts(1, 1)), Some(facts(2, 1))));
    assert!(!facemash_pair_by_ids(Some(facts(1, 1)), Some(facts(1, 2))));
    assert!(!facemash_pair_by_ids(None, Some(facts(1, 2))));
    let stale = FaceFacts { current_detector: false, ..facts(2, 2) };
    assert!(!facemash_pair_by_ids(Some(facts(1, 1)), Some(stale)));
}

#[test]
fn crops_are_named_and_turned() {
    assert_eq!(face_crop_name(FaceId(12)), "12-v6.png");
    assert_eq!(rotation_quadrant(5), 1);
    assert_eq!(rotation_quadrant(-1), 3);
    assert_eq!(rotation_quadrant(-4), 0);
    assert_eq!(rotation_quadrant(i32::MIN), 0);
}

#[test]
fn faces_need_the_image_they_were_seen_in() {
    let presence = |hidden, file_exists| FaceOrigin::Asset(Some(Presence { hidden, file_exists }));
    assert!(face_source_is_live(presence(false, true)));
    assert!(!face_source_is_live(presence(true, true)));
    assert!(!face_source_is_live(presence(false, false)));
    assert!(!face_source_is_live(FaceOrigin::Asset(None)));
    assert!(face_source_is_live(FaceOrigin::Remote(Some(true))));
    assert!(!face_source_is_live(FaceOrigin::Remote(Some(false))));
    assert!(!face_source_is_live(FaceOrigin::Remote(None)));
    assert!(!face_source_is_live(FaceOrigin::Nothing));
}
