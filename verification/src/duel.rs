//! What a vote, a nudge or a heart does to the counts of a session, and which parts of the quality
//! model it moves. The model's numbers themselves are computed by the caller.
use crate::model::{AssetId, FaceIdentityId, SessionId};
use crate::scalar::Scalar;
use crate::text;
use crate::textset::TextSet;
use crate::texttable::TextTable;
use vstd::prelude::*;

verus! {

/// The quality models that a collection can be kept under.
#[derive(Debug, Clone, Copy, PartialEq, Eq, Structural)]
pub enum QualityFormalVersion {
    LegacyIndependentV1,
    HierarchicalGaussianV1,
    HierarchicalPerturbativeV2,
    HierarchicalPerturbativeV3,
}

impl QualityFormalVersion {
    /// Votes are only counted; the model is fitted later from the record of all votes.
    pub open spec fn perturbative(self) -> bool {
        self == QualityFormalVersion::HierarchicalPerturbativeV2 || self
            == QualityFormalVersion::HierarchicalPerturbativeV3
    }

    /// Whether votes are only counted, to be fitted later.
    pub fn is_perturbative(self) -> (r: bool)
        ensures
            r == self.perturbative(),
    {
        match self {
            QualityFormalVersion::HierarchicalPerturbativeV2 => true,
            QualityFormalVersion::HierarchicalPerturbativeV3 => true,
            _ => false,
        }
    }

    /// Whether each vote moves the model at once.
    pub fn quality_refresh_is_inline(self) -> (r: bool)
        ensures
            r == !self.perturbative(),
    {
        !self.is_perturbative()
    }
}

/// What is counted for an image.
#[derive(Debug)]
pub struct AssetTally {
    pub id: AssetId,
    pub compare_count: u32,
    pub win_count: u32,
    pub heart_count: u32,
    pub is_hearted: bool,
}

impl Clone for AssetTally {
    fn clone(&self) -> (r: Self)
        ensures
            r == *self,
    {
        AssetTally {
            id: self.id.clone(),
            compare_count: self.compare_count,
            win_count: self.win_count,
            heart_count: self.heart_count,
            is_hearted: self.is_hearted,
        }
    }
}

/// What is counted for a session.
#[derive(Debug, Clone, Copy, PartialEq, Eq, Structural)]
pub struct SessionTally {
    pub id: SessionId,
    pub comparisons: u32,
    pub nudges: u32,
    pub hearts: u32,
}

/// Why a vote or a nudge is refused.
#[derive(Debug, PartialEq, Eq)]
pub enum VoteError {
    MissingLeft(AssetId),
    MissingRight(AssetId),
    SameAsset,
    ForeignWinner,
    MissingPosterior(AssetId),
    MissingSessionPosterior(SessionId),
    RemoteWinner,
    RemoteDuel,
    NudgeWithoutDirection,
}

impl VoteError {
    /// What is said of the refusal.
    pub open spec fn wording(self) -> Seq<char> {
        match self {
            VoteError::MissingLeft(id) => "missing left asset "@ + id@,
            VoteError::MissingRight(id) => "missing right asset "@ + id@,
            VoteError::SameAsset => "cannot compare an asset against itself"@,
            VoteError::ForeignWinner => "winner is not one of the compared assets"@,
            VoteError::MissingPosterior(id) => "missing hierarchical posterior for "@ + id@,
            VoteError::MissingSessionPosterior(id) => "missing hierarchical session posterior "@
                + text::signed_decimal(id.0 as int),
            VoteError::RemoteWinner => "remote winner is impossible in a local duel"@,
            VoteError::RemoteDuel => "remote-vs-remote arena duels are forbidden"@,
            VoteError::NudgeWithoutDirection => "unary nudge direction must be ±1"@,
        }
    }

    /// What is said of the refusal.
    pub fn message(&self) -> (r: String)
        ensures
            r@ == self.wording(),
    {
        match self {
            VoteError::MissingLeft(id) => "missing left asset ".to_owned().concat(id.0.as_str()),
            VoteError::MissingRight(id) => "missing right asset ".to_owned().concat(id.0.as_str()),
            VoteError::SameAsset => "cannot compare an asset against itself".to_owned(),
            VoteError::ForeignWinner => "winner is not one of the compared assets".to_owned(),
            VoteError::MissingPosterior(id) => "missing hierarchical posterior for ".to_owned().concat(
                id.0.as_str(),
            ),
            VoteError::MissingSessionPosterior(id) => {
                let mut r = "missing hierarchical session posterior ".to_owned();
                text::push_signed_decimal(&mut r, id.0);
                r
            },
            VoteError::RemoteWinner => "remote winner is impossible in a local duel".to_owned(),
            VoteError::RemoteDuel => "remote-vs-remote arena duels are forbidden".to_owned(),
            VoteError::NudgeWithoutDirection => "unary nudge direction must be ±1".to_owned(),
        }
    }
}

/// The first place of the image `id`, or the length of the list where it is not in it.
pub open spec fn asset_place(assets: Seq<AssetTally>, id: Seq<char>) -> int
    decreases assets.len(),
{
    if assets.len() == 0 || assets[0].id@ == id {
        0
    } else {
        1 + asset_place(assets.skip(1), id)
    }
}

proof fn lemma_asset_place(assets: Seq<AssetTally>, id: Seq<char>, i: int)
    requires
        0 <= i <= assets.len(),
        forall|j: int| 0 <= j < i ==> (#[trigger] assets[j]).id@ != id,
        i < assets.len() ==> assets[i].id@ == id,
    ensures
        asset_place(assets, id) == i,
    decreases assets.len(),
{
    if assets.len() > 0 && i > 0 {
        assert(assets[0].id@ != id);
        assert forall|j: int| 0 <= j < i - 1 implies (#[trigger] assets.skip(1)[j]).id@ != id by {
            assert(assets[j + 1].id@ != id);
        }
        lemma_asset_place(assets.skip(1), id, i - 1);
    }
}

/// A place in the list, if it is one, holds the image that was looked for.
pub proof fn lemma_asset_place_holds(assets: Seq<AssetTally>, id: Seq<char>)
    ensures
        0 <= asset_place(assets, id) <= assets.len(),
        asset_place(assets, id) < assets.len() ==> assets[asset_place(assets, id)].id@ == id,
    decreases assets.len(),
{
    if assets.len() > 0 && assets[0].id@ != id {
        lemma_asset_place_holds(assets.skip(1), id);
    }
}

/// The first place of the image `id`.
pub fn find_asset(assets: &Vec<AssetTally>, id: &AssetId) -> (r: Option<usize>)
    ensures
        match r {
            Some(i) => i < assets@.len() && i == asset_place(assets@, id@) && assets@[i as int].id@
                == id@,
            None => asset_place(assets@, id@) == assets@.len(),
        },
{
    let mut i: usize = 0;
    while i < assets.len()
        invariant
            i <= assets.len(),
            forall|j: int| 0 <= j < i ==> (#[trigger] assets@[j]).id@ != id@,
        decreases assets.len() - i,
    {
        if assets[i].id.same(id) {
            proof {
                lemma_asset_place(assets@, id@, i as int);
            }
            return Some(i);
        }
        i += 1;
    }
    proof {
        lemma_asset_place(assets@, id@, i as int);
    }
    None
}

/// What is known of the two images and of the session when a vote is cast.
#[derive(Debug, Clone, Copy)]
pub struct DuelFacts {
    pub quality_model: QualityFormalVersion,
    pub left_posterior: bool,
    pub right_posterior: bool,
    pub session_posterior: bool,
    pub left_face: Option<FaceIdentityId>,
    pub right_face: Option<FaceIdentityId>,
    pub has_head: bool,
    pub has_projection: bool,
    /// The length of the left image's embedding, if it has one.
    pub left_dim: Option<usize>,
    pub right_dim: Option<usize>,
}

/// How a subject's beauty moves: with the left side of the duel or with the right.
#[derive(Debug, Clone, Copy, PartialEq, Eq, Structural)]
pub struct FaceBackflow {
    pub identity_id: FaceIdentityId,
    pub toward_left: bool,
}

/// What happens to a linear model over embeddings.
#[derive(Debug, Clone, Copy, PartialEq, Eq, Structural)]
pub struct HeadPlan {
    /// A model of this many zeros is made first.
    pub fresh: Option<usize>,
    /// The model learns from the duel.
    pub step: bool,
}

/// What happens to the projection of embeddings.
#[derive(Debug, Clone, Copy, PartialEq, Eq, Structural)]
pub struct ProjectionPlan {
    pub fresh: Option<usize>,
    pub step_left: bool,
    pub step_right: bool,
}

/// Which parts of the quality model a vote moves.
#[derive(Debug)]
pub enum DuelUpdate {
    /// None: the vote is only counted.
    Counts,
    Hierarchical { backflow: Vec<FaceBackflow>, touched: Vec<FaceIdentityId>, head: HeadPlan },
    Legacy { head: HeadPlan, projection: ProjectionPlan },
}

/// A vote that was counted.
#[derive(Debug)]
pub struct DuelStep {
    pub left: usize,
    pub right: usize,
    pub left_won: bool,
    pub update: DuelUpdate,
}

/// The first that is there.
pub open spec fn first_of(a: Option<usize>, b: Option<usize>) -> Option<usize> {
    if a is Some {
        a
    } else {
        b
    }
}

/// The subjects whose beauty a duel moves: those of one side's face alone, or of both where they
/// differ.
pub open spec fn backflow_of(left: Option<FaceIdentityId>, right: Option<FaceIdentityId>) -> Seq<
    FaceBackflow,
> {
    match (left, right) {
        (Some(l), Some(r)) => if l == r {
            Seq::empty()
        } else {
            seq![
                FaceBackflow { identity_id: l, toward_left: true },
                FaceBackflow { identity_id: r, toward_left: false },
            ]
        },
        (Some(l), None) => seq![FaceBackflow { identity_id: l, toward_left: true }],
        (None, Some(r)) => seq![FaceBackflow { identity_id: r, toward_left: false }],
        (None, None) => Seq::empty(),
    }
}

/// Those subjects in ascending order.
pub open spec fn touched_of(left: Option<FaceIdentityId>, right: Option<FaceIdentityId>) -> Seq<
    FaceIdentityId,
> {
    match (left, right) {
        (Some(l), Some(r)) => if l.0 < r.0 {
            seq![l, r]
        } else if r.0 < l.0 {
            seq![r, l]
        } else {
            Seq::empty()
        },
        (Some(l), None) => seq![l],
        (None, Some(r)) => seq![r],
        (None, None) => Seq::empty(),
    }
}

/// A session's model over embeddings learns from a duel of two images with embeddings.
pub open spec fn duel_head(facts: DuelFacts) -> HeadPlan {
    HeadPlan {
        fresh: if facts.has_head {
            None
        } else {
            first_of(facts.left_dim, facts.right_dim)
        },
        step: facts.left_dim is Some && facts.right_dim is Some,
    }
}

/// The projection learns from each image with an embedding.
pub open spec fn duel_projection(facts: DuelFacts) -> ProjectionPlan {
    ProjectionPlan {
        fresh: if facts.has_projection {
            None
        } else {
            first_of(facts.left_dim, facts.right_dim)
        },
        step_left: facts.left_dim is Some,
        step_right: facts.right_dim is Some,
    }
}

/// What a vote moves under the model of the session.
pub open spec fn duel_update_fits(update: DuelUpdate, facts: DuelFacts) -> bool {
    match (facts.quality_model, update) {
        (QualityFormalVersion::HierarchicalPerturbativeV2, DuelUpdate::Counts) => true,
        (QualityFormalVersion::HierarchicalPerturbativeV3, DuelUpdate::Counts) => true,
        (
            QualityFormalVersion::HierarchicalGaussianV1,
            DuelUpdate::Hierarchical { backflow, touched, head },
        ) => backflow@ == backflow_of(facts.left_face, facts.right_face) && touched@ == touched_of(
            facts.left_face,
            facts.right_face,
        ) && head == duel_head(facts),
        (
            QualityFormalVersion::LegacyIndependentV1,
            DuelUpdate::Legacy { head, projection },
        ) => head == duel_head(facts) && projection == duel_projection(facts),
        _ => false,
    }
}

/// Why the vote is refused, if it is: the first of the reasons in this order.
pub open spec fn duel_refusal(
    assets: Seq<AssetTally>,
    session: SessionTally,
    left_id: AssetId,
    right_id: AssetId,
    winner_id: AssetId,
    facts: DuelFacts,
) -> Option<VoteError> {
    if asset_place(assets, left_id@) == assets.len() {
        Some(VoteError::MissingLeft(left_id))
    } else if asset_place(assets, right_id@) == assets.len() {
        Some(VoteError::MissingRight(right_id))
    } else if left_id@ == right_id@ {
        Some(VoteError::SameAsset)
    } else if winner_id@ != left_id@ && winner_id@ != right_id@ {
        Some(VoteError::ForeignWinner)
    } else if facts.quality_model != QualityFormalVersion::HierarchicalGaussianV1 {
        None
    } else if !facts.left_posterior {
        Some(VoteError::MissingPosterior(left_id))
    } else if !facts.right_posterior {
        Some(VoteError::MissingPosterior(right_id))
    } else if !facts.session_posterior {
        Some(VoteError::MissingSessionPosterior(session.id))
    } else {
        None
    }
}

/// The counts of an image after one more duel.
pub open spec fn after_duel(asset: AssetTally, won: bool) -> AssetTally {
    AssetTally {
        compare_count: (asset.compare_count + 1) as u32,
        win_count: if won {
            (asset.win_count + 1) as u32
        } else {
            asset.win_count
        },
        ..asset
    }
}

/// The counts of all images after a duel of two of them.
pub open spec fn voted(assets: Seq<AssetTally>, left: int, right: int, left_won: bool) -> Seq<
    AssetTally,
> {
    assets.update(left, after_duel(assets[left], left_won)).update(
        right,
        after_duel(assets[right], !left_won),
    )
}

/// None of the counts that a duel raises is at its limit.
pub open spec fn duel_has_room(
    assets: Seq<AssetTally>,
    left: int,
    right: int,
    left_won: bool,
) -> bool {
    &&& assets[left].compare_count < u32::MAX
    &&& assets[right].compare_count < u32::MAX
    &&& left_won ==> assets[left].win_count < u32::MAX
    &&& !left_won ==> assets[right].win_count < u32::MAX
}

/// The subjects whose beauty a duel moves, and in which direction.
pub fn face_backflow(left: Option<FaceIdentityId>, right: Option<FaceIdentityId>) -> (r: (
    Vec<FaceBackflow>,
    Vec<FaceIdentityId>,
))
    ensures
        r.0@ == backflow_of(left, right),
        r.1@ == touched_of(left, right),
{
    let mut backflow: Vec<FaceBackflow> = Vec::new();
    let mut touched: Vec<FaceIdentityId> = Vec::new();
    match (left, right) {
        (Some(l), Some(r)) => {
            if l.0 != r.0 {
                backflow.push(FaceBackflow { identity_id: l, toward_left: true });
                backflow.push(FaceBackflow { identity_id: r, toward_left: false });
                if l.0 < r.0 {
                    touched.push(l);
                    touched.push(r);
                } else {
                    touched.push(r);
                    touched.push(l);
                }
            } else {
                assert(l == r);
            }
        },
        (Some(l), None) => {
            backflow.push(FaceBackflow { identity_id: l, toward_left: true });
            touched.push(l);
        },
        (None, Some(r)) => {
            backflow.push(FaceBackflow { identity_id: r, toward_left: false });
            touched.push(r);
        },
        (None, None) => {},
    }
    assert(backflow@ =~= backflow_of(left, right));
    assert(touched@ =~= touched_of(left, right));
    (backflow, touched)
}

fn plan_head(facts: &DuelFacts) -> (r: HeadPlan)
    ensures
        r == duel_head(*facts),
{
    HeadPlan {
        fresh: if facts.has_head {
            None
        } else if facts.left_dim.is_some() {
            facts.left_dim
        } else {
            facts.right_dim
        },
        step: facts.left_dim.is_some() && facts.right_dim.is_some(),
    }
}

fn plan_projection(facts: &DuelFacts) -> (r: ProjectionPlan)
    ensures
        r == duel_projection(*facts),
{
    ProjectionPlan {
        fresh: if facts.has_projection {
            None
        } else if facts.left_dim.is_some() {
            facts.left_dim
        } else {
            facts.right_dim
        },
        step_left: facts.left_dim.is_some(),
        step_right: facts.right_dim.is_some(),
    }
}

fn plan_duel(facts: &DuelFacts) -> (r: DuelUpdate)
    ensures
        duel_update_fits(r, *facts),
{
    match facts.quality_model {
        QualityFormalVersion::HierarchicalPerturbativeV2 => DuelUpdate::Counts,
        QualityFormalVersion::HierarchicalPerturbativeV3 => DuelUpdate::Counts,
        QualityFormalVersion::HierarchicalGaussianV1 => {
            let (backflow, touched) = face_backflow(facts.left_face, facts.right_face);
            DuelUpdate::Hierarchical { backflow, touched, head: plan_head(facts) }
        },
        QualityFormalVersion::LegacyIndependentV1 => DuelUpdate::Legacy {
            head: plan_head(facts),
            projection: plan_projection(facts),
        },
    }
}

fn gate_duel(
    assets: &Vec<AssetTally>,
    session: SessionTally,
    left_id: &AssetId,
    right_id: &AssetId,
    winner_id: &AssetId,
    facts: &DuelFacts,
) -> (r: Result<(usize, usize), VoteError>)
    ensures
        match r {
            Err(e) => duel_refusal(assets@, session, *left_id, *right_id, *winner_id, *facts) == Some(
                e,
            ),
            Ok((left, right)) => duel_refusal(
                assets@,
                session,
                *left_id,
                *right_id,
                *winner_id,
                *facts,
            ) is None && left == asset_place(assets@, left_id@) && right == asset_place(
                assets@,
                right_id@,
            ) && left < assets@.len() && right < assets@.len() && left != right,
        },
{
    let left = match find_asset(assets, left_id) {
        Some(left) => left,
        None => {
            return Err(VoteError::MissingLeft(left_id.clone()));
        },
    };
    let right = match find_asset(assets, right_id) {
        Some(right) => right,
        None => {
            return Err(VoteError::MissingRight(right_id.clone()));
        },
    };
    if left_id.same(right_id) {
        return Err(VoteError::SameAsset);
    }
    if !winner_id.same(left_id) && !winner_id.same(right_id) {
        return Err(VoteError::ForeignWinner);
    }
    if let QualityFormalVersion::HierarchicalGaussianV1 = facts.quality_model {
        if !facts.left_posterior {
            return Err(VoteError::MissingPosterior(left_id.clone()));
        }
        if !facts.right_posterior {
            return Err(VoteError::MissingPosterior(right_id.clone()));
        }
        if !facts.session_posterior {
            return Err(VoteError::MissingSessionPosterior(session.id));
        }
    }
    Ok((left, right))
}

/// Counts a vote between two images of the collection and says which parts of the quality model it
/// moves. A refused vote changes nothing.
pub fn vote_local(
    assets: &mut Vec<AssetTally>,
    session: &mut SessionTally,
    left_id: &AssetId,
    right_id: &AssetId,
    winner_id: &AssetId,
    facts: &DuelFacts,
) -> (r: Result<DuelStep, VoteError>)
    requires
        duel_refusal(
            old(assets)@,
            *old(session),
            *left_id,
            *right_id,
            *winner_id,
            *facts,
        ) is None ==> old(session).comparisons < u32::MAX && duel_has_room(
            old(assets)@,
            asset_place(old(assets)@, left_id@),
            asset_place(old(assets)@, right_id@),
            winner_id@ == left_id@,
        ),
    ensures
        match r {
            Err(e) => duel_refusal(
                old(assets)@,
                *old(session),
                *left_id,
                *right_id,
                *winner_id,
                *facts,
            ) == Some(e) && final(assets)@ == old(assets)@ && *final(session) == *old(session),
            Ok(step) => {
                &&& duel_refusal(
                    old(assets)@,
                    *old(session),
                    *left_id,
                    *right_id,
                    *winner_id,
                    *facts,
                ) is None
                &&& step.left == asset_place(old(assets)@, left_id@)
                &&& step.right == asset_place(old(assets)@, right_id@)
                &&& step.left_won == (winner_id@ == left_id@)
                &&& duel_update_fits(step.update, *facts)
                &&& final(assets)@ == voted(
                    old(assets)@,
                    step.left as int,
                    step.right as int,
                    step.left_won,
                )
                &&& forall|i: int|
                    0 <= i < old(assets)@.len() ==> (#[trigger] final(assets)@[i]).win_count == old(
                        assets,
                    )@[i].win_count + if i == asset_place(old(assets)@, winner_id@) {
                        1int
                    } else {
                        0int
                    }
                &&& *final(session) == SessionTally {
                    comparisons: (old(session).comparisons + 1) as u32,
                    ..*old(session)
                }
            },
        },
{
    let (left, right) = match gate_duel(assets, *session, left_id, right_id, winner_id, facts) {
        Ok(places) => places,
        Err(e) => {
            return Err(e);
        },
    };
    let left_won = winner_id.same(left_id);
    let mut left_asset = assets[left].clone();
    let mut right_asset = assets[right].clone();
    left_asset.compare_count = left_asset.compare_count + 1;
    right_asset.compare_count = right_asset.compare_count + 1;
    if left_won {
        left_asset.win_count = left_asset.win_count + 1;
    } else {
        right_asset.win_count = right_asset.win_count + 1;
    }
    assets.set(left, left_asset);
    assets.set(right, right_asset);
    session.comparisons = session.comparisons + 1;
    Ok(DuelStep { left, right, left_won, update: plan_duel(facts) })
}

/// A nudge: the image is to be seen less, or more.
#[derive(Debug, Clone, Copy, PartialEq, Eq, Structural)]
pub enum UnaryFeedback {
    Less,
    More,
}

impl UnaryFeedback {
    /// The nudge in the direction of a sign.
    pub fn from_nudge(direction: i32) -> (r: Result<Self, VoteError>)
        ensures
            r == if direction < 0 {
                Ok(UnaryFeedback::Less)
            } else if direction > 0 {
                Ok(UnaryFeedback::More)
            } else {
                Err(VoteError::NudgeWithoutDirection)
            },
    {
        if direction < 0 {
            Ok(UnaryFeedback::Less)
        } else if direction > 0 {
            Ok(UnaryFeedback::More)
        } else {
            Err(VoteError::NudgeWithoutDirection)
        }
    }

    /// The sign of the nudge.
    pub fn direction(self) -> (r: i32)
        ensures
            r == if self == UnaryFeedback::Less {
                -1i32
            } else {
                1i32
            },
    {
        match self {
            UnaryFeedback::Less => -1,
            UnaryFeedback::More => 1,
        }
    }
}

/// What is known of the image and of the session when an image is nudged.
#[derive(Debug, Clone, Copy)]
pub struct NudgeFacts {
    pub quality_model: QualityFormalVersion,
    pub asset_posterior: bool,
    pub session_frontier: Scalar,
    /// The threshold of the session under a perturbative model.
    pub perturbative_threshold: Option<Scalar>,
    /// The frontier of the session under the hierarchical model.
    pub hierarchical_frontier: Option<Scalar>,
    pub has_head: bool,
    pub has_projection: bool,
    pub dim: Option<usize>,
}

/// The score that an image has to reach to be wanted: what the model of the session holds it to be,
/// else the one that the session was given.
pub open spec fn held_frontier(
    quality_model: QualityFormalVersion,
    own: Scalar,
    perturbative: Option<Scalar>,
    hierarchical: Option<Scalar>,
) -> Scalar {
    let held = if quality_model.perturbative() {
        perturbative
    } else {
        hierarchical
    };
    match held {
        Some(frontier) => frontier,
        None => own,
    }
}

/// The score that an image has to reach to be wanted in the session.
pub open spec fn frontier_of(facts: NudgeFacts) -> Scalar {
    held_frontier(
        facts.quality_model,
        facts.session_frontier,
        facts.perturbative_threshold,
        facts.hierarchical_frontier,
    )
}

/// The score that an image has to reach to be wanted in the session.
pub fn session_frontier(
    quality_model: QualityFormalVersion,
    own: Scalar,
    perturbative: Option<Scalar>,
    hierarchical: Option<Scalar>,
) -> (r: Scalar)
    ensures
        r == held_frontier(quality_model, own, perturbative, hierarchical),
{
    let held = if quality_model.is_perturbative() {
        perturbative
    } else {
        hierarchical
    };
    match held {
        Some(frontier) => frontier,
        None => own,
    }
}

/// What is held of the score that an image has to reach.
#[derive(Debug, Clone, Copy, PartialEq, Eq, Structural)]
pub struct FrontierBelief {
    pub mean: Scalar,
    pub variance: Scalar,
}

/// The mean of a belief, where there is one.
pub open spec fn mean_of(belief: Option<FrontierBelief>) -> Option<Scalar> {
    match belief {
        Some(belief) => Some(belief.mean),
        None => None,
    }
}

/// What is held of the frontier when the odds are asked for that an outside image is wanted: the
/// belief of the session under its model, else the frontier that the session was given, as unsure as
/// the model starts out.
pub fn accept_frontier(
    quality_model: QualityFormalVersion,
    own: Scalar,
    perturbative: Option<FrontierBelief>,
    hierarchical: Option<FrontierBelief>,
    perturbative_prior: Scalar,
    hierarchical_prior: Scalar,
) -> (r: FrontierBelief)
    ensures
        r.mean == held_frontier(quality_model, own, mean_of(perturbative), mean_of(hierarchical)),
        r.variance == if quality_model.perturbative() {
            match perturbative {
                Some(belief) => belief.variance,
                None => perturbative_prior,
            }
        } else {
            match hierarchical {
                Some(belief) => belief.variance,
                None => hierarchical_prior,
            }
        },
{
    let (held, prior) = if quality_model.is_perturbative() {
        (perturbative, perturbative_prior)
    } else {
        (hierarchical, hierarchical_prior)
    };
    match held {
        Some(belief) => belief,
        None => FrontierBelief { mean: own, variance: prior },
    }
}

/// Which parts of the quality model a nudge moves.
#[derive(Debug, Clone, Copy, PartialEq, Eq, Structural)]
pub enum NudgeUpdate {
    /// None: the nudge is only counted, and the image keeps its offset in the session.
    Counts,
    Hierarchical { head: HeadPlan },
    Legacy { head: HeadPlan, projection: HeadPlan },
}

/// A nudge that was counted.
#[derive(Debug, Clone, Copy, PartialEq, Eq, Structural)]
pub struct NudgeStep {
    pub at: usize,
    pub frontier_before: Scalar,
    pub update: NudgeUpdate,
}

/// The model learns from the image if it has an embedding.
pub open spec fn nudge_head(present: bool, dim: Option<usize>) -> HeadPlan {
    HeadPlan {
        fresh: if present {
            None
        } else {
            dim
        },
        step: dim is Some,
    }
}

/// Which parts of the quality model a nudge moves.
pub open spec fn nudge_update(facts: NudgeFacts) -> NudgeUpdate {
    match facts.quality_model {
        QualityFormalVersion::LegacyIndependentV1 => NudgeUpdate::Legacy {
            head: nudge_head(facts.has_head, facts.dim),
            projection: nudge_head(facts.has_projection, facts.dim),
        },
        QualityFormalVersion::HierarchicalGaussianV1 => NudgeUpdate::Hierarchical {
            head: nudge_head(facts.has_head, facts.dim),
        },
        _ => NudgeUpdate::Counts,
    }
}

/// Why the nudge is refused, if it is: the first of the reasons in this order.
pub open spec fn nudge_refusal(session: SessionTally, asset_id: AssetId, facts: NudgeFacts) -> Option<
    VoteError,
> {
    if facts.quality_model != QualityFormalVersion::HierarchicalGaussianV1 {
        None
    } else if facts.hierarchical_frontier is None {
        Some(VoteError::MissingSessionPosterior(session.id))
    } else if !facts.asset_posterior {
        Some(VoteError::MissingPosterior(asset_id))
    } else {
        None
    }
}

fn plan_nudge_head(present: bool, dim: Option<usize>) -> (r: HeadPlan)
    ensures
        r == nudge_head(present, dim),
{
    HeadPlan {
        fresh: if present {
            None
        } else {
            dim
        },
        step: dim.is_some(),
    }
}

/// Counts a nudge of an image and says which parts of the quality model it moves. A nudge of an
/// image that is not in the collection does nothing.
pub fn apply_unary_feedback(
    assets: &Vec<AssetTally>,
    session: &mut SessionTally,
    asset_id: &AssetId,
    facts: &NudgeFacts,
) -> (r: Result<Option<NudgeStep>, VoteError>)
    requires
        asset_place(assets@, asset_id@) < assets@.len() && nudge_refusal(
            *old(session),
            *asset_id,
            *facts,
        ) is None ==> old(session).nudges < u32::MAX,
    ensures
        match r {
            Ok(None) => asset_place(assets@, asset_id@) == assets@.len() && *final(session) == *old(
                session,
            ),
            Err(e) => asset_place(assets@, asset_id@) < assets@.len() && nudge_refusal(
                *old(session),
                *asset_id,
                *facts,
            ) == Some(e) && *final(session) == *old(session),
            Ok(Some(step)) => {
                &&& asset_place(assets@, asset_id@) < assets@.len()
                &&& nudge_refusal(*old(session), *asset_id, *facts) is None
                &&& step == NudgeStep {
                    at: asset_place(assets@, asset_id@) as usize,
                    frontier_before: frontier_of(*facts),
                    update: nudge_update(*facts),
                }
                &&& *final(session) == SessionTally {
                    nudges: (old(session).nudges + 1) as u32,
                    ..*old(session)
                }
            },
        },
{
    let at = match find_asset(assets, asset_id) {
        Some(at) => at,
        None => {
            return Ok(None);
        },
    };
    let frontier_before = session_frontier(
        facts.quality_model,
        facts.session_frontier,
        facts.perturbative_threshold,
        facts.hierarchical_frontier,
    );
    let update = match facts.quality_model {
        QualityFormalVersion::HierarchicalPerturbativeV2 => NudgeUpdate::Counts,
        QualityFormalVersion::HierarchicalPerturbativeV3 => NudgeUpdate::Counts,
        QualityFormalVersion::HierarchicalGaussianV1 => {
            if facts.hierarchical_frontier.is_none() {
                return Err(VoteError::MissingSessionPosterior(session.id));
            }
            if !facts.asset_posterior {
                return Err(VoteError::MissingPosterior(asset_id.clone()));
            }
            NudgeUpdate::Hierarchical { head: plan_nudge_head(facts.has_head, facts.dim) }
        },
        QualityFormalVersion::LegacyIndependentV1 => NudgeUpdate::Legacy {
            head: plan_nudge_head(facts.has_head, facts.dim),
            projection: plan_nudge_head(facts.has_projection, facts.dim),
        },
    };
    session.nudges = session.nudges + 1;
    Ok(Some(NudgeStep { at, frontier_before, update }))
}

/// The offset of an image in the session, zero where none is held.
pub fn exact_offset(offsets: &TextTable<Scalar>, asset_id: &AssetId) -> (r: Scalar)
    ensures
        r == if offsets@.contains_key(asset_id@) {
            offsets@[asset_id@]
        } else {
            (Scalar { bits: 0 })
        },
{
    match offsets.get(&asset_id.0) {
        Some(offset) => offset,
        None => Scalar { bits: 0 },
    }
}

/// Holds the new offset of an image, unless it is too close to zero to be kept.
pub fn note_offset(
    offsets: &mut TextTable<Scalar>,
    asset_id: &AssetId,
    next: Scalar,
    epsilon: Scalar,
)
    ensures
        final(offsets)@ == if (Scalar { bits: next.magnitude() as u32 }).below(epsilon) {
            old(offsets)@.remove(asset_id@)
        } else {
            old(offsets)@.insert(asset_id@, next)
        },
{
    if next.abs().is_below(epsilon) {
        offsets.remove(&asset_id.0);
    } else {
        offsets.insert(asset_id.0.clone(), next);
    }
}

/// Hearts an image: once per image, and never takes a heart back.
pub fn set_heart_asset(
    assets: &mut Vec<AssetTally>,
    session: &mut SessionTally,
    hearted_assets: &mut TextSet,
    asset_id: &AssetId,
    active: bool,
) -> (r: Option<usize>)
    ensures
        ({
            let at = asset_place(old(assets)@, asset_id@);
            let done = active && at < old(assets)@.len() && !old(assets)@[at].is_hearted;
            &&& r == if done {
                Some(at as usize)
            } else {
                None
            }
            &&& done ==> {
                &&& final(assets)@ == old(assets)@.update(at, hearted(old(assets)@[at]))
                &&& *final(session) == SessionTally {
                    hearts: one_more(old(session).hearts),
                    ..*old(session)
                }
                &&& final(hearted_assets)@ == old(hearted_assets)@.insert(asset_id@)
            }
            &&& !done ==> {
                &&& final(assets)@ == old(assets)@
                &&& *final(session) == *old(session)
                &&& final(hearted_assets)@ == old(hearted_assets)@
            }
        }),
{
    if !active {
        return None;
    }
    let at = match find_asset(assets, asset_id) {
        Some(at) => at,
        None => {
            return None;
        },
    };
    if assets[at].is_hearted {
        return None;
    }
    let mut asset = assets[at].clone();
    asset.is_hearted = true;
    asset.heart_count = asset.heart_count.saturating_add(1);
    assets.set(at, asset);
    session.hearts = session.hearts.saturating_add(1);
    let _fresh = hearted_assets.insert(asset_id.0.clone());
    Some(at)
}

/// One more, up to the largest count.
pub open spec fn one_more(n: u32) -> u32 {
    if n == u32::MAX {
        n
    } else {
        (n + 1) as u32
    }
}

/// The image with its heart.
pub open spec fn hearted(asset: AssetTally) -> AssetTally {
    AssetTally { is_hearted: true, heart_count: one_more(asset.heart_count), ..asset }
}

/// The main face of an image, with the beauty of its subject.
#[derive(Debug)]
pub struct DominantFace {
    pub asset_id: AssetId,
    pub identity_id: FaceIdentityId,
    pub mean: Scalar,
    pub sigma: Scalar,
    pub duel_count: u32,
}

impl Clone for DominantFace {
    fn clone(&self) -> (r: Self)
        ensures
            r == *self,
    {
        DominantFace {
            asset_id: self.asset_id.clone(),
            identity_id: self.identity_id,
            mean: self.mean,
            sigma: self.sigma,
            duel_count: self.duel_count,
        }
    }
}

/// The face with a new beauty where it is of the subject.
pub open spec fn rebeautified(
    face: DominantFace,
    identity_id: FaceIdentityId,
    mean: Scalar,
    sigma: Scalar,
) -> DominantFace {
    if face.identity_id == identity_id {
        DominantFace { mean, sigma, ..face }
    } else {
        face
    }
}

/// Gives every face of a subject the subject's new beauty.
pub fn spread_beauty(
    faces: &mut Vec<DominantFace>,
    identity_id: FaceIdentityId,
    mean: Scalar,
    sigma: Scalar,
)
    ensures
        final(faces)@ == old(faces)@.map_values(
            |face: DominantFace| rebeautified(face, identity_id, mean, sigma),
        ),
{
    let mut i: usize = 0;
    while i < faces.len()
        invariant
            i <= faces.len(),
            faces.len() == old(faces).len(),
            forall|j: int|
                0 <= j < i ==> #[trigger] faces@[j] == rebeautified(
                    old(faces)@[j],
                    identity_id,
                    mean,
                    sigma,
                ),
            forall|j: int| i <= j < faces.len() ==> #[trigger] faces@[j] == old(faces)@[j],
        decreases faces.len() - i,
    {
        if faces[i].identity_id.0 == identity_id.0 {
            let mut face = faces[i].clone();
            face.mean = mean;
            face.sigma = sigma;
            faces.set(i, face);
        }
        i += 1;
    }
    assert(faces@ =~= old(faces)@.map_values(
        |face: DominantFace| rebeautified(face, identity_id, mean, sigma),
    ));
}

/// The beauty of a subject as it is stored.
#[derive(Debug, Clone, Copy, PartialEq, Eq, Structural)]
pub struct BeautySnapshot {
    pub identity_id: FaceIdentityId,
    pub mean: Scalar,
    pub sigma: Scalar,
    pub duel_count: u32,
}

/// What is stored of the subject of a face.
pub open spec fn snapshot_of(face: DominantFace) -> BeautySnapshot {
    BeautySnapshot {
        identity_id: face.identity_id,
        mean: face.mean,
        sigma: face.sigma,
        duel_count: face.duel_count,
    }
}

/// The first face of a subject.
pub open spec fn face_of(faces: Seq<DominantFace>, identity_id: FaceIdentityId) -> Option<DominantFace>
    decreases faces.len(),
{
    if faces.len() == 0 {
        None
    } else if faces[0].identity_id == identity_id {
        Some(faces[0])
    } else {
        face_of(faces.skip(1), identity_id)
    }
}

/// What is stored after a duel: the beauty of each subject that it moved, in the order of `touched`.
pub open spec fn snapshots(faces: Seq<DominantFace>, touched: Seq<FaceIdentityId>) -> Seq<
    BeautySnapshot,
>
    decreases touched.len(),
{
    if touched.len() == 0 {
        Seq::empty()
    } else {
        let before = snapshots(faces, touched.drop_last());
        match face_of(faces, touched.last()) {
            Some(face) => before.push(snapshot_of(face)),
            None => before,
        }
    }
}

fn find_face(faces: &Vec<DominantFace>, identity_id: FaceIdentityId) -> (r: Option<BeautySnapshot>)
    ensures
        r == match face_of(faces@, identity_id) {
            Some(face) => Some(snapshot_of(face)),
            None => None,
        },
{
    let mut i: usize = 0;
    assert(faces@.skip(0) =~= faces@);
    while i < faces.len()
        invariant
            i <= faces.len(),
            face_of(faces@, identity_id) == face_of(faces@.skip(i as int), identity_id),
        decreases faces.len() - i,
    {
        if faces[i].identity_id.0 == identity_id.0 {
            assert(faces@.skip(i as int)[0].identity_id == identity_id);
            return Some(
                BeautySnapshot {
                    identity_id: faces[i].identity_id,
                    mean: faces[i].mean,
                    sigma: faces[i].sigma,
                    duel_count: faces[i].duel_count,
                },
            );
        }
        assert(faces@.skip(i as int).skip(1) =~= faces@.skip(i + 1));
        i += 1;
    }
    None
}

/// What is stored after a duel.
pub fn beauty_snapshot(faces: &Vec<DominantFace>, touched: &Vec<FaceIdentityId>) -> (r: Vec<
    BeautySnapshot,
>)
    ensures
        r@ == snapshots(faces@, touched@),
{
    let mut r: Vec<BeautySnapshot> = Vec::new();
    let mut i: usize = 0;
    while i < touched.len()
        invariant
            i <= touched.len(),
            r@ == snapshots(faces@, touched@.take(i as int)),
        decreases touched.len() - i,
    {
        proof {
            assert(touched@.take(i + 1).drop_last() =~= touched@.take(i as int));
            assert(touched@.take(i + 1).last() == touched@[i as int]);
        }
        match find_face(faces, touched[i]) {
            Some(snapshot) => {
                r.push(snapshot);
            },
            None => {},
        }
        i += 1;
    }
    assert(touched@.take(i as int) =~= touched@);
    r
}

/// Which formula gives the score of an image in the session.
#[derive(Debug, Clone, Copy, PartialEq, Eq, Structural)]
pub enum UtilitySource {
    Perturbative,
    Hierarchical,
    Session,
}

/// Which formula gives the score of an image in the session: that of the model where both
/// posteriors are there, else that of the session.
pub fn utility_source(
    quality_model: QualityFormalVersion,
    asset_posterior: bool,
    session_posterior: bool,
) -> (r: UtilitySource)
    ensures
        r == if asset_posterior && session_posterior && quality_model
            == QualityFormalVersion::HierarchicalPerturbativeV3 {
            UtilitySource::Perturbative
        } else if asset_posterior && session_posterior && quality_model
            == QualityFormalVersion::HierarchicalGaussianV1 {
            UtilitySource::Hierarchical
        } else {
            UtilitySource::Session
        },
{
    if !asset_posterior || !session_posterior {
        return UtilitySource::Session;
    }
    match quality_model {
        QualityFormalVersion::HierarchicalPerturbativeV3 => UtilitySource::Perturbative,
        QualityFormalVersion::HierarchicalGaussianV1 => UtilitySource::Hierarchical,
        _ => UtilitySource::Session,
    }
}

/// The score, or zero where it is negative or not finite.
pub fn sanitize_score(value: Scalar) -> (r: Scalar)
    ensures
        r == if value.finite() && value.order() > 0 {
            value
        } else {
            (Scalar { bits: 0 })
        },
{
    let zero = Scalar { bits: 0 };
    if value.is_finite() && zero.is_below(value) {
        value
    } else {
        zero
    }
}

/// All duels that the images were in, counted once for each image.
pub open spec fn total_compares(assets: Seq<AssetTally>) -> int
    decreases assets.len(),
{
    if assets.len() == 0 {
        0
    } else {
        total_compares(assets.drop_last()) + assets.last().compare_count
    }
}

/// All duels that the images won.
pub open spec fn total_wins(assets: Seq<AssetTally>) -> int
    decreases assets.len(),
{
    if assets.len() == 0 {
        0
    } else {
        total_wins(assets.drop_last()) + assets.last().win_count
    }
}

proof fn lemma_totals_update(assets: Seq<AssetTally>, at: int, asset: AssetTally)
    requires
        0 <= at < assets.len(),
    ensures
        total_compares(assets.update(at, asset)) == total_compares(assets) - assets[at].compare_count
            + asset.compare_count,
        total_wins(assets.update(at, asset)) == total_wins(assets) - assets[at].win_count
            + asset.win_count,
    decreases assets.len(),
{
    let changed = assets.update(at, asset);
    if at == assets.len() - 1 {
        assert(changed.drop_last() =~= assets.drop_last());
    } else {
        lemma_totals_update(assets.drop_last(), at, asset);
        assert(changed.drop_last() =~= assets.drop_last().update(at, asset));
    }
}

/// A vote is one duel for each of two images and one win for one of them: where every duel so far
/// had exactly one winner, that still holds.
pub proof fn every_duel_has_one_winner(assets: Seq<AssetTally>, left: int, right: int, left_won: bool)
    requires
        0 <= left < assets.len(),
        0 <= right < assets.len(),
        left != right,
        duel_has_room(assets, left, right, left_won),
    ensures
        total_compares(voted(assets, left, right, left_won)) == total_compares(assets) + 2,
        total_wins(voted(assets, left, right, left_won)) == total_wins(assets) + 1,
        total_compares(assets) == 2 * total_wins(assets) ==> total_compares(
            voted(assets, left, right, left_won),
        ) == 2 * total_wins(voted(assets, left, right, left_won)),
{
    let once = assets.update(left, after_duel(assets[left], left_won));
    lemma_totals_update(assets, left, after_duel(assets[left], left_won));
    lemma_totals_update(once, right, after_duel(assets[right], !left_won));
}

/// No image ever has more wins than duels.
pub proof fn wins_stay_within_duels(assets: Seq<AssetTally>, left: int, right: int, left_won: bool)
    requires
        0 <= left < assets.len(),
        0 <= right < assets.len(),
        left != right,
        duel_has_room(assets, left, right, left_won),
        forall|i: int| 0 <= i < assets.len() ==> (#[trigger] assets[i]).win_count <= assets[i].compare_count,
    ensures
        forall|i: int|
            0 <= i < assets.len() ==> (#[trigger] voted(assets, left, right, left_won)[i]).win_count
                <= voted(assets, left, right, left_won)[i].compare_count,
{
    assert(assets[left].win_count <= assets[left].compare_count);
    assert(assets[right].win_count <= assets[right].compare_count);
}

/// It does not matter on which side an image stood: the counts after the vote are the same.
pub proof fn sides_do_not_matter(assets: Seq<AssetTally>, left: int, right: int, left_won: bool)
    requires
        0 <= left < assets.len(),
        0 <= right < assets.len(),
        left != right,
    ensures
        voted(assets, left, right, left_won) == voted(assets, right, left, !left_won),
{
    assert(voted(assets, left, right, left_won) =~= voted(assets, right, left, !left_won));
}

/// Only the two images of a duel are counted.
pub proof fn other_images_keep_their_counts(
    assets: Seq<AssetTally>,
    left: int,
    right: int,
    left_won: bool,
    other: int,
)
    requires
        0 <= left < assets.len(),
        0 <= right < assets.len(),
        0 <= other < assets.len(),
        other != left,
        other != right,
    ensures
        voted(assets, left, right, left_won)[other] == assets[other],
{
}

} // verus!
