//! Votes, nudges and hearts.
use crate::duel;
use crate::duel::{
    AssetTally, DominantFace, DuelFacts, DuelUpdate, FaceBackflow, NudgeFacts, NudgeUpdate,
    QualityFormalVersion, SessionTally, VoteError,
};
use crate::model::{AssetId, FaceIdentityId};
use crate::scalar::Scalar;
use vstd::prelude::*;

verus! {

/// Some image of the list has the name.
pub open spec fn listed(assets: Seq<AssetTally>, id: Seq<char>) -> bool {
    exists|i: int| 0 <= i < assets.len() && (#[trigger] assets[i]).id@ == id
}

/// An image is found at the first place that holds its name, and behind the list only where no place
/// does.
pub proof fn images_are_found_at_their_first_place(assets: Seq<AssetTally>, id: Seq<char>)
    ensures
        0 <= duel::asset_place(assets, id) <= assets.len(),
        forall|j: int| 0 <= j < duel::asset_place(assets, id) ==> (#[trigger] assets[j]).id@ != id,
        duel::asset_place(assets, id) < assets.len() ==> assets[duel::asset_place(assets, id)].id@ == id,
        duel::asset_place(assets, id) < assets.len() <==> listed(assets, id),
    decreases assets.len(),
{
    if assets.len() > 0 && assets[0].id@ != id {
        let rest = assets.skip(1);
        images_are_found_at_their_first_place(rest, id);
        assert forall|j: int| 0 <= j < duel::asset_place(assets, id) implies (
        #[trigger] assets[j]).id@ != id by {
            if j > 0 {
                assert(rest[j - 1].id@ != id);
            }
        }
        if listed(assets, id) {
            let i = choose|i: int| 0 <= i < assets.len() && (#[trigger] assets[i]).id@ == id;
            assert(rest[i - 1].id@ == id);
        }
        if listed(rest, id) {
            let i = choose|i: int| 0 <= i < rest.len() && (#[trigger] rest[i]).id@ == id;
            assert(assets[i + 1].id@ == id);
        }
    } else if assets.len() > 0 {
        assert(assets[0].id@ == id);
    }
}

/// A vote gives one win to the image that won and none to any other, whatever the earlier counts; both
/// images of the duel have one comparison more. Names and hearts stay, and so does every other image.
pub proof fn a_vote_counts_for_its_winner(
    assets: Seq<AssetTally>,
    left: int,
    right: int,
    left_won: bool,
    i: int,
)
    requires
        0 <= left < assets.len(),
        0 <= right < assets.len(),
        left != right,
        duel::duel_has_room(assets, left, right, left_won),
        0 <= i < assets.len(),
    ensures
        ({
            let winner = if left_won {
                left
            } else {
                right
            };
            let after = duel::voted(assets, left, right, left_won);
            &&& after.len() == assets.len()
            &&& after[i].win_count == assets[i].win_count + if i == winner {
                1int
            } else {
                0int
            }
            &&& after[i].compare_count == assets[i].compare_count + if i == left || i == right {
                1int
            } else {
                0int
            }
            &&& after[i].id == assets[i].id
            &&& after[i].heart_count == assets[i].heart_count
            &&& after[i].is_hearted == assets[i].is_hearted
        }),
{
}

/// There is room for a vote exactly where none of the counts that it raises is at its end.
pub proof fn votes_have_room_below_the_largest_count(
    assets: Seq<AssetTally>,
    left: int,
    right: int,
    left_won: bool,
)
    requires
        0 <= left < assets.len(),
        0 <= right < assets.len(),
        left != right,
    ensures
        duel::duel_has_room(assets, left, right, left_won) <==> {
            let winner = if left_won {
                left
            } else {
                right
            };
            &&& assets[left].compare_count + 1 <= u32::MAX
            &&& assets[right].compare_count + 1 <= u32::MAX
            &&& assets[winner].win_count + 1 <= u32::MAX
        },
{
}

/// A vote is accepted exactly where both images are in the collection, are two, one of them won and,
/// under the model that moves by each vote, all that it moves is there. What is missing first is what
/// the refusal names.
pub proof fn votes_are_refused_for_cause(
    assets: Seq<AssetTally>,
    session: SessionTally,
    left_id: AssetId,
    right_id: AssetId,
    winner_id: AssetId,
    facts: DuelFacts,
)
    ensures
        ({
            let refusal = duel::duel_refusal(assets, session, left_id, right_id, winner_id, facts);
            let known = listed(assets, left_id@) && listed(assets, right_id@);
            let fair = left_id@ != right_id@ && (winner_id@ == left_id@ || winner_id@ == right_id@);
            let moves = facts.quality_model == QualityFormalVersion::HierarchicalGaussianV1;
            let held = facts.left_posterior && facts.right_posterior && facts.session_posterior;
            &&& refusal is None <==> known && fair && (moves ==> held)
            &&& !listed(assets, left_id@) <==> refusal == Some(VoteError::MissingLeft(left_id))
            &&& refusal is Some && listed(assets, left_id@) && !listed(assets, right_id@) ==> refusal
                == Some(VoteError::MissingRight(right_id))
            &&& known && left_id@ == right_id@ ==> refusal == Some(VoteError::SameAsset)
            &&& known && left_id@ != right_id@ && !fair ==> refusal == Some(VoteError::ForeignWinner)
            &&& known && fair && moves && !facts.left_posterior ==> refusal == Some(
                VoteError::MissingPosterior(left_id),
            )
            &&& known && fair && moves && facts.left_posterior && !facts.right_posterior ==> refusal
                == Some(VoteError::MissingPosterior(right_id))
            &&& known && fair && moves && facts.left_posterior && facts.right_posterior
                && !facts.session_posterior ==> refusal == Some(
                VoteError::MissingSessionPosterior(session.id),
            )
        }),
{
    images_are_found_at_their_first_place(assets, left_id@);
    images_are_found_at_their_first_place(assets, right_id@);
}

/// A vote moves the beauty of a subject exactly where the subject is on one side alone, and towards
/// that side; the left side comes first. The same subjects are written down, each once, the smaller
/// number first.
pub proof fn beauty_flows_to_the_side_that_shows_it(
    left: Option<FaceIdentityId>,
    right: Option<FaceIdentityId>,
    subject: FaceIdentityId,
)
    ensures
        ({
            let flow = duel::backflow_of(left, right);
            let touched = duel::touched_of(left, right);
            let on_left = left == Some(subject);
            let on_right = right == Some(subject);
            &&& flow.len() == touched.len() <= 2
            &&& flow.contains(FaceBackflow { identity_id: subject, toward_left: true }) <==> on_left
                && !on_right
            &&& flow.contains(FaceBackflow { identity_id: subject, toward_left: false }) <==> on_right
                && !on_left
            &&& flow.len() == 2 ==> flow[0].toward_left && !flow[1].toward_left
            &&& touched.contains(subject) <==> on_left != on_right
            &&& touched.len() == 2 ==> touched[0].0 < touched[1].0
        }),
{
    let flow = duel::backflow_of(left, right);
    let touched = duel::touched_of(left, right);
    if left is Some && right is Some && left != right {
        let (l, r) = (left->0, right->0);
        assert(l.0 != r.0);
        assert(flow[0].identity_id == left->0 && flow[1].identity_id == right->0);
        assert(touched[0] == left->0 || touched[1] == left->0);
        assert(touched[0] == right->0 || touched[1] == right->0);
    } else if left is Some && right is None {
        assert(flow[0].identity_id == left->0 && touched[0] == left->0);
    } else if left is None && right is Some {
        assert(flow[0].identity_id == right->0 && touched[0] == right->0);
    }
}

/// A model over embeddings is made only where there is none and an image has an embedding, and in the
/// size of an embedding of the duel, the left one before the right. It learns from the images that
/// have embeddings: the model of the session from two, the projection from each.
pub proof fn models_are_made_once_and_learn_from_embeddings(facts: DuelFacts, dim: usize)
    ensures
        ({
            let head = duel::duel_head(facts);
            let projection = duel::duel_projection(facts);
            let some = facts.left_dim is Some || facts.right_dim is Some;
            &&& head.fresh is Some <==> !facts.has_head && some
            &&& projection.fresh is Some <==> !facts.has_projection && some
            &&& head.fresh == Some(dim) || projection.fresh == Some(dim) ==> facts.left_dim == Some(dim)
                || (facts.left_dim is None && facts.right_dim == Some(dim))
            &&& head.step <==> facts.left_dim is Some && facts.right_dim is Some
            &&& projection.step_left <==> facts.left_dim is Some
            &&& projection.step_right <==> facts.right_dim is Some
        }),
{
}

/// The two newer models only count votes and nudges; of the others, one moves the beliefs, and the
/// oldest the projection too.
pub proof fn each_model_moves_its_parts(update: DuelUpdate, facts: DuelFacts, nudge: NudgeFacts)
    requires
        duel::duel_update_fits(update, facts),
    ensures
        facts.quality_model.perturbative() <==> facts.quality_model
            == QualityFormalVersion::HierarchicalPerturbativeV2 || facts.quality_model
            == QualityFormalVersion::HierarchicalPerturbativeV3,
        update is Counts <==> facts.quality_model.perturbative(),
        update is Hierarchical <==> facts.quality_model
            == QualityFormalVersion::HierarchicalGaussianV1,
        update is Legacy <==> facts.quality_model == QualityFormalVersion::LegacyIndependentV1,
        duel::nudge_update(nudge) is Counts <==> nudge.quality_model.perturbative(),
        duel::nudge_update(nudge) is Hierarchical <==> nudge.quality_model
            == QualityFormalVersion::HierarchicalGaussianV1,
        duel::nudge_update(nudge) is Legacy <==> nudge.quality_model
            == QualityFormalVersion::LegacyIndependentV1,
        update matches DuelUpdate::Hierarchical { backflow, touched, head } ==> backflow@.len()
            == touched@.len() && (forall|subject: FaceIdentityId| #[trigger]
            touched@.contains(subject) <==> (facts.left_face == Some(subject)) != (facts.right_face
                == Some(subject))) && (head.step <==> facts.left_dim is Some && facts.right_dim is Some),
        update matches DuelUpdate::Legacy { head, projection } ==> (head.step <==> projection.step_left
            && projection.step_right),
{
    if let DuelUpdate::Hierarchical { backflow, touched, head } = update {
        assert forall|subject: FaceIdentityId| #[trigger]
            touched@.contains(subject) <==> (facts.left_face == Some(subject)) != (facts.right_face
                == Some(subject)) by {
            beauty_flows_to_the_side_that_shows_it(facts.left_face, facts.right_face, subject);
        }
        beauty_flows_to_the_side_that_shows_it(
            facts.left_face,
            facts.right_face,
            FaceIdentityId(0),
        );
    }
}

/// A nudge is refused only under the model that moves by it, and there exactly where a belief is
/// missing: the session's before the image's. A model is made only where there is none, in the size of
/// the image's embedding, and learns only from one.
pub proof fn nudges_need_what_they_move(session: SessionTally, asset_id: AssetId, facts: NudgeFacts)
    ensures
        ({
            let refusal = duel::nudge_refusal(session, asset_id, facts);
            let moves = facts.quality_model == QualityFormalVersion::HierarchicalGaussianV1;
            &&& refusal is Some <==> moves && (facts.hierarchical_frontier is None
                || !facts.asset_posterior)
            &&& moves && facts.hierarchical_frontier is None ==> refusal == Some(
                VoteError::MissingSessionPosterior(session.id),
            )
            &&& moves && facts.hierarchical_frontier is Some && !facts.asset_posterior ==> refusal
                == Some(VoteError::MissingPosterior(asset_id))
        }),
        duel::nudge_update(facts) matches NudgeUpdate::Hierarchical { head } ==> (head.step
            <==> facts.dim is Some) && head.fresh == if facts.has_head {
            None
        } else {
            facts.dim
        },
        duel::nudge_update(facts) matches NudgeUpdate::Legacy { head, projection } ==> (head.step
            <==> facts.dim is Some) && (projection.step <==> facts.dim is Some) && (facts.has_head
            ==> head.fresh is None) && (!facts.has_head ==> head.fresh == facts.dim) && (
        facts.has_projection ==> projection.fresh is None) && (!facts.has_projection
            ==> projection.fresh == facts.dim),
{
}

/// The frontier that counts is that of the model in use where it holds one, never that of another
/// model, and the session's own only where the model holds none.
pub proof fn the_frontier_is_that_of_the_model(
    quality_model: QualityFormalVersion,
    own: Scalar,
    perturbative: Option<Scalar>,
    hierarchical: Option<Scalar>,
    other: Option<Scalar>,
)
    ensures
        ({
            let newer = quality_model == QualityFormalVersion::HierarchicalPerturbativeV2
                || quality_model == QualityFormalVersion::HierarchicalPerturbativeV3;
            let held = duel::held_frontier(quality_model, own, perturbative, hierarchical);
            &&& newer && perturbative is Some ==> held == perturbative->0
            &&& !newer && hierarchical is Some ==> held == hierarchical->0
            &&& newer ==> held == duel::held_frontier(quality_model, own, perturbative, other)
            &&& !newer ==> held == duel::held_frontier(quality_model, own, other, hierarchical)
            &&& newer && perturbative is None ==> held == own
            &&& !newer && hierarchical is None ==> held == own
        }),
{
}

/// A heart marks the image, counts one up unless the count is at its end, and changes nothing else of
/// the image.
pub proof fn a_heart_marks_and_counts(asset: AssetTally)
    ensures
        duel::hearted(asset).is_hearted,
        asset.heart_count < u32::MAX ==> duel::hearted(asset).heart_count == asset.heart_count + 1,
        asset.heart_count == u32::MAX ==> duel::hearted(asset).heart_count == asset.heart_count,
        duel::hearted(asset).id == asset.id,
        duel::hearted(asset).compare_count == asset.compare_count,
        duel::hearted(asset).win_count == asset.win_count,
        forall|n: u32| n < u32::MAX ==> #[trigger] duel::one_more(n) == n + 1,
        duel::one_more(u32::MAX) == u32::MAX,
{
}

/// A new beauty reaches every face of its subject and no face of another; nothing else of a face
/// changes.
pub proof fn beauty_is_that_of_the_subject(
    face: DominantFace,
    subject: FaceIdentityId,
    mean: Scalar,
    sigma: Scalar,
)
    ensures
        ({
            let after = duel::rebeautified(face, subject, mean, sigma);
            &&& after.asset_id == face.asset_id
            &&& after.identity_id == face.identity_id
            &&& after.duel_count == face.duel_count
            &&& face.identity_id == subject ==> after.mean == mean && after.sigma == sigma
            &&& face.identity_id != subject ==> after.mean == face.mean && after.sigma == face.sigma
        }),
{
}

/// What is found of a subject is its first face; nothing is found exactly where it has none.
pub proof fn subjects_are_found_by_their_first_face(
    faces: Seq<DominantFace>,
    subject: FaceIdentityId,
    at: int,
)
    requires
        0 <= at < faces.len(),
        faces[at].identity_id == subject,
        forall|j: int| 0 <= j < at ==> (#[trigger] faces[j]).identity_id != subject,
    ensures
        duel::face_of(faces, subject) == Some(faces[at]),
    decreases faces.len(),
{
    if at > 0 {
        let rest = faces.skip(1);
        assert(faces[0].identity_id != subject);
        assert forall|j: int| 0 <= j < at - 1 implies (#[trigger] rest[j]).identity_id != subject by {
            assert(faces[j + 1].identity_id != subject);
        }
        subjects_are_found_by_their_first_face(rest, subject, at - 1);
    }
}

/// Nothing is found of a subject without a face.
pub proof fn subjects_without_a_face_are_not_found(faces: Seq<DominantFace>, subject: FaceIdentityId)
    requires
        forall|j: int| 0 <= j < faces.len() ==> (#[trigger] faces[j]).identity_id != subject,
    ensures
        duel::face_of(faces, subject) is None,
    decreases faces.len(),
{
    if faces.len() > 0 {
        let rest = faces.skip(1);
        assert(faces[0].identity_id != subject);
        assert forall|j: int| 0 <= j < rest.len() implies (#[trigger] rest[j]).identity_id != subject by {
            assert(faces[j + 1].identity_id != subject);
        }
        subjects_without_a_face_are_not_found(rest, subject);
    }
}

/// Where every subject that a duel moved has a face, one line is stored for each, in the order of the
/// list, with the numbers of the subject's first face.
pub proof fn every_moved_subject_is_stored(
    faces: Seq<DominantFace>,
    touched: Seq<FaceIdentityId>,
    places: Seq<int>,
)
    requires
        places.len() == touched.len(),
        forall|k: int|
            0 <= k < touched.len() ==> 0 <= #[trigger] places[k] < faces.len()
                && faces[places[k]].identity_id == touched[k],
        forall|k: int, j: int|
            0 <= k < touched.len() && 0 <= j < places[k] ==> (#[trigger] faces[j]).identity_id
                != #[trigger] touched[k],
    ensures
        duel::snapshots(faces, touched).len() == touched.len(),
        forall|k: int|
            0 <= k < touched.len() ==> ({
                let line = #[trigger] duel::snapshots(faces, touched)[k];
                let face = faces[places[k]];
                line.identity_id == touched[k] && line.mean == face.mean && line.sigma == face.sigma
                    && line.duel_count == face.duel_count
            }),
    decreases touched.len(),
{
    if touched.len() > 0 {
        let last = touched.len() - 1;
        let (fewer, before) = (touched.drop_last(), places.drop_last());
        assert forall|k: int| 0 <= k < fewer.len() implies 0 <= #[trigger] before[k] < faces.len()
            && faces[before[k]].identity_id == fewer[k] by {
            assert(places[k] == before[k]);
        }
        assert forall|k: int, j: int| 0 <= k < fewer.len() && 0 <= j < before[k] implies (
        #[trigger] faces[j]).identity_id != #[trigger] fewer[k] by {
            assert(fewer[k] == touched[k]);
        }
        every_moved_subject_is_stored(faces, fewer, before);
        assert(touched[last] == touched.last());
        assert forall|j: int| 0 <= j < places[last] implies (#[trigger] faces[j]).identity_id
            != touched.last() by {
            assert(faces[j].identity_id != touched[last]);
        }
        subjects_are_found_by_their_first_face(faces, touched.last(), places[last]);
        assert forall|k: int| 0 <= k < touched.len() implies ({
            let line = #[trigger] duel::snapshots(faces, touched)[k];
            let face = faces[places[k]];
            line.identity_id == touched[k] && line.mean == face.mean && line.sigma == face.sigma
                && line.duel_count == face.duel_count
        }) by {
            if k < last {
                assert(duel::snapshots(faces, touched)[k] == duel::snapshots(faces, fewer)[k]);
                assert(before[k] == places[k]);
            }
        }
    }
}

} // verus!
