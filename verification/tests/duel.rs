use picmash::duel::{
    accept_frontier, apply_unary_feedback, beauty_snapshot, exact_offset, face_backflow,
    note_offset, sanitize_score, session_frontier, set_heart_asset, spread_beauty, utility_source,
    vote_local, AssetTally, DominantFace, DuelFacts, DuelUpdate, FrontierBelief, NudgeFacts, NudgeUpdate, QualityFormalVersion, SessionTally, UnaryFeedback,
    UtilitySource, VoteError,
};
use picmash::model::{AssetId, FaceIdentityId, SessionId};
use picmash::scalar::Scalar;
use picmash::textset::TextSet;
use picmash::texttable::TextTable;

fn scalar(value: f32) -> Scalar {
    Scalar { bits: value.to_bits() }
}

fn id(name: &str) -> AssetId {
    AssetId(name.to_owned())
}

fn tally(name: &str) -> AssetTally {
    AssetTally { id: id(name), compare_count: 0, win_count: 0, heart_count: 0, is_hearted: false }
}

fn session() -> SessionTally {
    SessionTally { id: SessionId(7), comparisons: 0, nudges: 0, hearts: 0 }
}

fn facts(quality_model: QualityFormalVersion) -> DuelFacts {
    DuelFacts {
        quality_model,
        left_posterior: true,
        right_posterior: true,
        session_posterior: true,
        left_face: None,
        right_face: None,
        has_head: true,
        has_projection: true,
        left_dim: Some(4),
        right_dim: Some(4),
    }
}

const V3: QualityFormalVersion = QualityFormalVersion::HierarchicalPerturbativeV3;
const GAUSSIAN: QualityFormalVersion = QualityFormalVersion::HierarchicalGaussianV1;
const LEGACY: QualityFormalVersion = QualityFormalVersion::LegacyIndependentV1;

#[test]
fn a_duel_counts_for_both_and_wins_for_one() {
    let mut assets = vec![tally("a"), tally("b"), tally("c")];
    let mut session = session();
    let step =
        vote_local(&mut assets, &mut session, &id("a"), &id("c"), &id("c"), &facts(V3)).expect("vote");
    assert_eq!((step.left, step.right, step.left_won), (0, 2, false));
    assert!(matches!(step.update, DuelUpdate::Counts));
    let counts: Vec<(u32, u32)> =
        assets.iter().map(|asset| (asset.compare_count, asset.win_count)).collect();
    assert_eq!(counts, vec![(1, 0), (0, 0), (1, 1)]);
    assert_eq!(session.comparisons, 1);

    let mut mirrored = vec![tally("a"), tally("b"), tally("c")];
    let mut other = SessionTally { comparisons: 0, ..session };
    vote_local(&mut mirrored, &mut other, &id("c"), &id("a"), &id("c"), &facts(V3)).expect("vote");
    let swapped: Vec<(u32, u32)> =
        mirrored.iter().map(|asset| (asset.compare_count, asset.win_count)).collect();
    assert_eq!(swapped, counts);
}

#[test]
fn every_refused_vote_says_why_and_changes_nothing() {
    let mut assets = vec![tally("a"), tally("b")];
    let mut session = session();
    let mut refuse = |left: &str, right: &str, winner: &str, facts: &DuelFacts| {
        let error =
            vote_local(&mut assets, &mut session, &id(left), &id(right), &id(winner), facts).unwrap_err();
        assert_eq!(assets[0].compare_count + assets[1].compare_count, 0);
        assert_eq!(session.comparisons, 0);
        error.message()
    };
    let plain = facts(V3);
    assert_eq!(refuse("z", "b", "b", &plain), "missing left asset z");
    assert_eq!(refuse("a", "z", "a", &plain), "missing right asset z");
    assert_eq!(refuse("a", "a", "a", &plain), "cannot compare an asset against itself");
    assert_eq!(refuse("a", "b", "z", &plain), "winner is not one of the compared assets");
    let left = DuelFacts { left_posterior: false, ..facts(GAUSSIAN) };
    assert_eq!(refuse("a", "b", "a", &left), "missing hierarchical posterior for a");
    let right = DuelFacts { right_posterior: false, ..facts(GAUSSIAN) };
    assert_eq!(refuse("a", "b", "a", &right), "missing hierarchical posterior for b");
    let none = DuelFacts { session_posterior: false, ..facts(GAUSSIAN) };
    assert_eq!(refuse("a", "b", "a", &none), "missing hierarchical session posterior 7");
}

#[test]
fn other_models_say_what_has_to_be_moved() {
    let mut assets = vec![tally("a"), tally("b")];
    let mut session = session();
    let hierarchical = DuelFacts {
        left_face: Some(FaceIdentityId(9)),
        right_face: Some(FaceIdentityId(4)),
        has_head: false,
        left_dim: None,
        ..facts(GAUSSIAN)
    };
    let step = vote_local(&mut assets, &mut session, &id("a"), &id("b"), &id("a"), &hierarchical)
        .expect("vote");
    match step.update {
        DuelUpdate::Hierarchical { backflow, touched, head } => {
            assert_eq!(touched, vec![FaceIdentityId(4), FaceIdentityId(9)]);
            assert_eq!(backflow.len(), 2);
            assert!(backflow[0].toward_left && backflow[0].identity_id == FaceIdentityId(9));
            assert_eq!(head.fresh, Some(4));
            assert!(!head.step);
        }
        update => panic!("{update:?}"),
    }
    let legacy = DuelFacts { has_projection: false, right_dim: None, ..facts(LEGACY) };
    let step =
        vote_local(&mut assets, &mut session, &id("a"), &id("b"), &id("b"), &legacy).expect("vote");
    match step.update {
        DuelUpdate::Legacy { head, projection } => {
            assert_eq!(head.fresh, None);
            assert!(!head.step);
            assert_eq!(projection.fresh, Some(4));
            assert!(projection.step_left);
            assert!(!projection.step_right);
        }
        update => panic!("{update:?}"),
    }
}

#[test]
fn one_face_on_both_sides_stays_as_it_is() {
    let same = Some(FaceIdentityId(3));
    let (backflow, touched) = face_backflow(same, same);
    assert!(backflow.is_empty() && touched.is_empty());
    let (backflow, touched) = face_backflow(None, same);
    assert_eq!(touched, vec![FaceIdentityId(3)]);
    assert!(!backflow[0].toward_left);
}

#[test]
fn nudges_have_a_direction() {
    assert_eq!(UnaryFeedback::from_nudge(1), Ok(UnaryFeedback::More));
    assert_eq!(UnaryFeedback::from_nudge(-1), Ok(UnaryFeedback::Less));
    assert_eq!(UnaryFeedback::from_nudge(0), Err(VoteError::NudgeWithoutDirection));
    assert_eq!(
        VoteError::NudgeWithoutDirection.message(),
        "unary nudge direction must be ±1"
    );
    assert_eq!(UnaryFeedback::Less.direction(), -1);
    assert_eq!(UnaryFeedback::More.direction(), 1);
}

#[test]
fn nudges_are_measured_at_the_frontier() {
    let assets = vec![tally("a")];
    let mut session = session();
    let nudge = NudgeFacts {
        quality_model: V3,
        asset_posterior: true,
        session_frontier: scalar(0.25),
        perturbative_threshold: Some(scalar(0.5)),
        hierarchical_frontier: Some(scalar(0.75)),
        has_head: false,
        has_projection: false,
        dim: Some(3),
    };
    let step = apply_unary_feedback(&assets, &mut session, &id("a"), &nudge).expect("nudge");
    let step = step.expect("step");
    assert_eq!(step.frontier_before, scalar(0.5));
    assert!(matches!(step.update, NudgeUpdate::Counts));
    assert_eq!(session.nudges, 1);

    let gaussian = NudgeFacts { quality_model: GAUSSIAN, ..nudge };
    let step = apply_unary_feedback(&assets, &mut session, &id("a"), &gaussian).expect("nudge");
    let step = step.expect("step");
    assert_eq!(step.frontier_before, scalar(0.75));
    match step.update {
        NudgeUpdate::Hierarchical { head } => assert_eq!((head.fresh, head.step), (Some(3), true)),
        update => panic!("{update:?}"),
    }
    let missing = apply_unary_feedback(&assets, &mut session, &id("z"), &nudge).expect("nudge");
    assert!(missing.is_none());
    let refused = NudgeFacts { hierarchical_frontier: None, ..gaussian };
    assert_eq!(
        apply_unary_feedback(&assets, &mut session, &id("a"), &refused).unwrap_err(),
        VoteError::MissingSessionPosterior(SessionId(7))
    );
    let unknown = NudgeFacts { asset_posterior: false, ..gaussian };
    assert_eq!(
        apply_unary_feedback(&assets, &mut session, &id("a"), &unknown).unwrap_err(),
        VoteError::MissingPosterior(id("a"))
    );
}

#[test]
fn small_offsets_are_forgotten() {
    let mut offsets: TextTable<Scalar> = TextTable::new();
    assert_eq!(exact_offset(&offsets, &id("a")), scalar(0.0));
    note_offset(&mut offsets, &id("a"), scalar(-0.5), scalar(1e-3));
    assert_eq!(exact_offset(&offsets, &id("a")), scalar(-0.5));
    note_offset(&mut offsets, &id("a"), scalar(-1e-4), scalar(1e-3));
    assert_eq!(exact_offset(&offsets, &id("a")), scalar(0.0));
}

#[test]
fn hearts_are_counted_when_they_are_given() {
    let mut assets = vec![tally("a")];
    let mut session = session();
    let mut hearted = TextSet::new();
    assert_eq!(set_heart_asset(&mut assets, &mut session, &mut hearted, &id("a"), true), Some(0));
    assert!(assets[0].is_hearted);
    assert_eq!((assets[0].heart_count, session.hearts), (1, 1));
    assert!(hearted.contains(&"a".to_owned()));
    assert_eq!(set_heart_asset(&mut assets, &mut session, &mut hearted, &id("a"), true), None);
    assert_eq!(set_heart_asset(&mut assets, &mut session, &mut hearted, &id("a"), false), None);
    assert!(assets[0].is_hearted);
    assert_eq!((assets[0].heart_count, session.hearts), (1, 1));
    assert_eq!(set_heart_asset(&mut assets, &mut session, &mut hearted, &id("z"), true), None);
}

#[test]
fn beauty_spreads_to_all_images_of_a_subject() {
    let face = |name: &str, subject: i64, mean: f32| DominantFace {
        asset_id: id(name),
        identity_id: FaceIdentityId(subject),
        mean: scalar(mean),
        sigma: scalar(1.0),
        duel_count: 2,
    };
    let mut faces = vec![face("a", 1, 0.1), face("b", 2, 0.2), face("c", 1, 0.1)];
    spread_beauty(&mut faces, FaceIdentityId(1), scalar(0.9), scalar(0.3));
    let means: Vec<Scalar> = faces.iter().map(|face| face.mean).collect();
    assert_eq!(means, vec![scalar(0.9), scalar(0.2), scalar(0.9)]);
    let snapshots =
        beauty_snapshot(&faces, &vec![FaceIdentityId(2), FaceIdentityId(5), FaceIdentityId(1)]);
    assert_eq!(snapshots.len(), 2);
    assert_eq!(snapshots[1].sigma, scalar(0.3));
    assert_eq!(snapshots[0].duel_count, 2);
}

#[test]
fn scores_come_from_the_model_in_use() {
    assert_eq!(utility_source(V3, true, true), UtilitySource::Perturbative);
    assert_eq!(utility_source(GAUSSIAN, true, true), UtilitySource::Hierarchical);
    assert_eq!(utility_source(GAUSSIAN, false, true), UtilitySource::Session);
    assert_eq!(utility_source(LEGACY, true, true), UtilitySource::Session);
    assert_eq!(sanitize_score(scalar(f32::NAN)), scalar(0.0));
    assert_eq!(sanitize_score(scalar(-3.5)), scalar(0.0));
    assert_eq!(sanitize_score(scalar(3.5)), scalar(3.5));
    assert!(V3.is_perturbative() && !GAUSSIAN.is_perturbative());
    assert!(GAUSSIAN.quality_refresh_is_inline() && !V3.quality_refresh_is_inline());
}

#[test]
fn the_frontier_is_the_one_of_the_model() {
    let perturbative = QualityFormalVersion::HierarchicalPerturbativeV2;
    let gaussian = QualityFormalVersion::HierarchicalGaussianV1;
    let (own, low, high) = (scalar(0.5), scalar(-1.0), scalar(2.0));
    assert_eq!(session_frontier(perturbative, own, Some(low), Some(high)), low);
    assert_eq!(session_frontier(gaussian, own, Some(low), Some(high)), high);
    assert_eq!(session_frontier(perturbative, own, None, Some(high)), own);
    assert_eq!(session_frontier(gaussian, own, Some(low), None), own);

    let belief = FrontierBelief { mean: low, variance: scalar(0.25) };
    let prior = (scalar(3.0), scalar(4.0));
    assert_eq!(accept_frontier(perturbative, own, Some(belief), None, prior.0, prior.1), belief);
    assert_eq!(
        accept_frontier(perturbative, own, None, Some(belief), prior.0, prior.1),
        FrontierBelief { mean: own, variance: prior.0 }
    );
    assert_eq!(
        accept_frontier(gaussian, own, Some(belief), None, prior.0, prior.1),
        FrontierBelief { mean: own, variance: prior.1 }
    );
}
