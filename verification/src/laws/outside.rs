//! Which outside images are shown, and what becomes of them.
use crate::arena::{LockExhaustionPolicy, Presence};
use crate::asset_domain::AssetDomainLabel;
use crate::config::ImportPolicy;
use crate::duel::QualityFormalVersion;
use crate::laws::order;
use crate::model::{ArenaHandle, RemoteItemId};
use crate::pairing;
use crate::rank;
use crate::remote_pick;
use crate::remote_pick::{
    ExternalEventKind, ForeignRemoteWinner, ProbeFace, RemoteCandidate, RemoteDuelOutcome,
    RemoteSummarySource,
};
use crate::scalar::Scalar;
use vstd::prelude::*;

verus! {

/// An outside image is there unless one of its number was found without a file.
pub proof fn images_without_files_are_not_there(candidates: Seq<RemoteCandidate>, i: int)
    ensures
        remote_pick::materialized(candidates, i) <==> forall|j: int|
            0 <= j < candidates.len() && (#[trigger] candidates[j]).item_id == candidates[i].item_id
                ==> candidates[j].file_exists,
{
}

/// An image of a source is shown only where its file is there, it does not look like one shown lately
/// and it is not a repeat to be left out. It is then shown where its thread was not shown lately, and
/// where it was, exactly when the images that can be shown are of no more threads than were shown
/// lately.
pub proof fn sources_show_what_is_new(
    candidates: Seq<RemoteCandidate>,
    excluded: Set<Seq<char>>,
    repeats: Option<Seq<RemoteItemId>>,
    recent_streams: Set<i64>,
    i: int,
)
    ensures
        ({
            let shown = remote_pick::source_keeps(candidates, excluded, repeats, recent_streams, i);
            let possible = remote_pick::materialized(candidates, i) && !pairing::visual_excluded(
                candidates[i].visual_key,
                excluded,
            ) && !(repeats is Some && repeats->0.contains(candidates[i].item_id));
            let threads = remote_pick::base_streams(
                candidates,
                excluded,
                repeats,
                candidates.len() as int,
            );
            &&& possible <==> remote_pick::source_base(candidates, excluded, repeats, i)
            &&& shown ==> possible
            &&& possible && !recent_streams.contains(candidates[i].stream_id) ==> shown
            &&& possible && recent_streams.contains(candidates[i].stream_id) ==> (shown <==> threads.len()
                <= recent_streams.len())
        }),
{
}

/// The threads that are counted are those of the images that can be shown.
pub proof fn threads_count_where_they_have_images(
    candidates: Seq<RemoteCandidate>,
    excluded: Set<Seq<char>>,
    repeats: Option<Seq<RemoteItemId>>,
    n: int,
    stream_id: i64,
)
    ensures
        remote_pick::base_streams(candidates, excluded, repeats, n).contains(stream_id) <==> exists|i: int|
            0 <= i < n && (#[trigger] candidates[i]).stream_id == stream_id && remote_pick::source_base(
                candidates,
                excluded,
                repeats,
                i,
            ),
        remote_pick::base_streams(candidates, excluded, repeats, n).finite(),
    decreases n,
{
    if n > 0 {
        threads_count_where_they_have_images(candidates, excluded, repeats, n - 1, stream_id);
        if remote_pick::base_streams(candidates, excluded, repeats, n).contains(stream_id)
            && !remote_pick::base_streams(candidates, excluded, repeats, n - 1).contains(stream_id) {
            assert(candidates[n - 1].stream_id == stream_id);
        }
    }
}

/// From a locked thread only images of that thread are shown whose files are there. One that was not
/// shown lately and looks like none that was is always shown, and while there is one, nothing else is.
/// Where all look like one shown lately, those not themselves shown are, and where all were shown, all
/// are.
pub proof fn locked_threads_show_their_freshest(
    candidates: Seq<RemoteCandidate>,
    stream_id: i64,
    excluded: Set<Seq<char>>,
    recent: Seq<RemoteItemId>,
    i: int,
    j: int,
)
    requires
        0 <= i < candidates.len(),
        0 <= j < candidates.len(),
    ensures
        ({
            let kept = remote_pick::lock_keeps(candidates, stream_id, excluded, recent, i);
            let here = |k: int|
                remote_pick::materialized(candidates, k) && candidates[k].stream_id == stream_id;
            let seen = |k: int| pairing::visual_excluded(candidates[k].visual_key, excluded);
            let shown = |k: int| recent.contains(candidates[k].item_id);
            &&& kept ==> here(i)
            &&& here(i) && !seen(i) && !shown(i) ==> kept
            &&& kept && here(j) && !seen(j) ==> !seen(i)
            &&& kept && here(j) && !seen(j) && !shown(j) ==> !shown(i)
            &&& kept && here(j) && seen(i) && !shown(j) ==> !shown(i)
            &&& here(i) && (forall|k: int| 0 <= k < candidates.len() && #[trigger] here(k) ==> seen(k))
                && !shown(i) ==> kept
            &&& here(i) && (forall|k: int| 0 <= k < candidates.len() && #[trigger] here(k) ==> seen(k))
                && (forall|k: int| 0 <= k < candidates.len() && #[trigger] here(k) ==> shown(k)) ==> kept
            &&& here(i) && !seen(i) && (forall|k: int|
                0 <= k < candidates.len() && #[trigger] here(k) && !seen(k) ==> shown(k)) ==> kept
        }),
{
    let here = |k: int|
        remote_pick::materialized(candidates, k) && candidates[k].stream_id == stream_id;
    let seen = |k: int| pairing::visual_excluded(candidates[k].visual_key, excluded);
    let shown = |k: int| recent.contains(candidates[k].item_id);
    assert forall|k: int| #[trigger] here(k) <==> remote_pick::in_lock(candidates, stream_id, k) by {}
    let unseen = remote_pick::lock_has_unseen(candidates, stream_id, excluded);
    if here(j) && !seen(j) {
        assert(remote_pick::in_lock(candidates, stream_id, j));
        assert(unseen);
        assert(remote_pick::lock_visible(candidates, stream_id, excluded, j));
    }
    if here(i) && !seen(i) {
        assert(remote_pick::in_lock(candidates, stream_id, i));
        assert(unseen);
        assert(remote_pick::lock_visible(candidates, stream_id, excluded, i));
    }
    let fresh = remote_pick::lock_has_fresh(candidates, stream_id, excluded, recent);
    if fresh {
        let k = choose|k: int|
            0 <= k < candidates.len() && #[trigger] remote_pick::lock_visible(
                candidates,
                stream_id,
                excluded,
                k,
            ) && !recent.contains(candidates[k].item_id);
        assert(here(k));
    }
    if unseen {
        let k = choose|k: int|
            0 <= k < candidates.len() && #[trigger] remote_pick::in_lock(candidates, stream_id, k)
                && !pairing::visual_excluded(candidates[k].visual_key, excluded);
        assert(here(k));
    } else if here(j) {
        assert(remote_pick::lock_visible(candidates, stream_id, excluded, j));
    }
}

/// A search that only looks ahead is offered what was neither shown lately nor looks like it; one whose
/// pair is shown is offered what the locked thread shows.
pub proof fn looking_ahead_asks_for_fresh_images(
    candidates: Seq<RemoteCandidate>,
    stream_id: i64,
    excluded: Set<Seq<char>>,
    recent: Seq<RemoteItemId>,
    i: int,
)
    ensures
        remote_pick::lock_offers(
            LockExhaustionPolicy::PreserveAndStop,
            candidates,
            stream_id,
            excluded,
            recent,
            i,
        ) <==> remote_pick::materialized(candidates, i) && candidates[i].stream_id == stream_id
            && !pairing::visual_excluded(candidates[i].visual_key, excluded) && !recent.contains(
            candidates[i].item_id,
        ),
        remote_pick::lock_offers(
            LockExhaustionPolicy::ClearAndRetry,
            candidates,
            stream_id,
            excluded,
            recent,
            i,
        ) <==> remote_pick::lock_keeps(candidates, stream_id, excluded, recent, i),
{
}

/// The total of counts is their sum.
pub proof fn totals_add_up(counts: Seq<usize>, count: usize)
    ensures
        remote_pick::total(Seq::empty()) == 0,
        remote_pick::total(counts.push(count)) == remote_pick::total(counts) + count,
{
    assert(counts.push(count).drop_last() =~= counts);
}

/// The session's own model counts where it is in use; otherwise a baseline stands in until the session
/// has a posterior, a posterior of the image itself counts where there is one, and priors where there
/// is none. Only photographs with features have a technical prior and a mood, and without a label an
/// image counts as a drawing.
pub proof fn summaries_come_from_the_best_known(
    quality_model: QualityFormalVersion,
    session_posterior: bool,
    cached_posterior: bool,
    domain: Option<AssetDomainLabel>,
    has_features: bool,
)
    ensures
        ({
            let r = remote_pick::remote_summary_source_of(
                quality_model,
                session_posterior,
                cached_posterior,
                domain,
                has_features,
            );
            let own = quality_model is LegacyIndependentV1;
            let layered = quality_model is HierarchicalGaussianV1;
            &&& r is Legacy <==> own
            &&& r is Baseline <==> !own && !session_posterior
            &&& r is HierarchicalCache <==> layered && session_posterior && cached_posterior
            &&& r is HierarchicalPrior <==> layered && session_posterior && !cached_posterior
            &&& r is PerturbativeCache <==> !own && !layered && session_posterior && cached_posterior
            &&& r is PerturbativePrior <==> !own && !layered && session_posterior && !cached_posterior
            &&& match r {
                RemoteSummarySource::HierarchicalPrior { technical, vibe } => {
                    &&& technical <==> has_features && domain == Some(AssetDomainLabel::Real)
                    &&& vibe <==> technical
                },
                RemoteSummarySource::PerturbativePrior { technical, domain: label } => {
                    &&& technical <==> has_features && domain == Some(AssetDomainLabel::Real)
                    &&& label is Real <==> domain == Some(AssetDomainLabel::Real)
                },
                _ => true,
            }
        }),
{
    assert(quality_model == QualityFormalVersion::LegacyIndependentV1 <==> quality_model
        is LegacyIndependentV1);
    assert(quality_model == QualityFormalVersion::HierarchicalGaussianV1 <==> quality_model
        is HierarchicalGaussianV1);
}

/// A vote does nothing once one of the two images is gone. Else the winner has to be one of the two: the
/// outside image is taken in where it wins, and where it loses unless its source takes in only what is
/// hearted; then the result alone is noted.
pub proof fn outside_images_are_taken_in_or_noted(
    local: Option<Presence>,
    remote: Option<Presence>,
    policy: Option<ImportPolicy>,
    local_id: Seq<char>,
    remote_id: RemoteItemId,
    winner: ArenaHandle,
)
    ensures
        ({
            let r = remote_pick::remote_duel_outcome(local, remote, policy, local_id, remote_id, winner);
            let gone = local is None || remote is None || local->0.hidden || !local->0.file_exists
                || !remote->0.file_exists;
            let local_won = match winner {
                ArenaHandle::Local(id) => id@ == local_id,
                ArenaHandle::Remote(_) => false,
            };
            let remote_won = winner == ArenaHandle::Remote(remote_id);
            &&& remote_pick::duel_stands(local, remote) <==> !gone
            &&& gone <==> r == Ok::<RemoteDuelOutcome, ForeignRemoteWinner>(RemoteDuelOutcome::Ignored)
            &&& !gone && !local_won && !remote_won <==> r is Err
            &&& !gone && remote_won <==> r == Ok::<RemoteDuelOutcome, ForeignRemoteWinner>(
                RemoteDuelOutcome::QueueImport(ExternalEventKind::RemoteWin),
            )
            &&& !gone && local_won && policy != Some(ImportPolicy::Hearted) <==> r == Ok::<
                RemoteDuelOutcome,
                ForeignRemoteWinner,
            >(RemoteDuelOutcome::QueueImport(ExternalEventKind::LocalWin))
            &&& !gone && local_won && policy == Some(ImportPolicy::Hearted) <==> r == Ok::<
                RemoteDuelOutcome,
                ForeignRemoteWinner,
            >(RemoteDuelOutcome::Record(ExternalEventKind::LocalWin))
        }),
{
    if let Some(p) = policy {
        assert(p == ImportPolicy::NotX || p == ImportPolicy::Hearted);
    }
    assert(ExternalEventKind::LocalWin != ExternalEventKind::RemoteWin);
}

/// In the name of a source letters and digits of ASCII stay, and all else becomes a hyphen, character by
/// character.
pub proof fn path_names_keep_letters_and_digits(name: Seq<char>, i: int)
    requires
        0 <= i < name.len(),
    ensures
        remote_pick::path_key(name).len() == name.len(),
        ('a' <= name[i] && name[i] <= 'z') || ('A' <= name[i] && name[i] <= 'Z') || ('0' <= name[i] && name[i]
            <= '9') ==> remote_pick::path_key(name)[i] == name[i],
        !(('a' <= name[i] && name[i] <= 'z') || ('A' <= name[i] && name[i] <= 'Z') || ('0' <= name[i]
            && name[i] <= '9')) ==> remote_pick::path_key(name)[i] == '-',
{
}

/// A face counts where both sides are positive numbers of at least the smallest side that is recognised,
/// unless it was deleted.
pub proof fn large_faces_count(face: ProbeFace, min_side: Scalar)
    ensures
        remote_pick::face_counts(face, min_side) <==> {
            &&& !face.tombstoned
            &&& !face.width.nan() && !face.height.nan() && !min_side.nan()
            &&& face.width.order() >= min_side.order() && face.height.order() >= min_side.order()
            &&& face.width.order() > 0 && face.height.order() > 0
        },
{
}

/// Of the faces that count none is larger than the chosen one, and none of the same size was found more
/// surely.
pub proof fn the_largest_face_is_chosen(faces: Seq<ProbeFace>, min_side: Scalar, at: int, other: int)
    requires
        remote_pick::is_largest_face(at, faces, min_side),
        0 <= other < faces.len(),
        remote_pick::face_counts(faces[other], min_side),
    ensures
        remote_pick::face_counts(faces[at], min_side),
        faces[other].area.place() <= faces[at].area.place(),
        faces[other].area == faces[at].area ==> faces[other].confidence.place()
            <= faces[at].confidence.place(),
        faces[other].area == faces[at].area && faces[other].confidence == faces[at].confidence ==> other
            <= at,
{
    let (a, b) = (faces[at], faces[other]);
    let (x, y) = (remote_pick::face_size_key(a), remote_pick::face_size_key(b));
    order::numbers_are_placed_by_size(a.area, b.area);
    order::numbers_are_placed_by_size(b.area, a.area);
    order::numbers_are_placed_by_size(a.confidence, b.confidence);
    order::numbers_are_placed_by_size(b.confidence, a.confidence);
    assert(x[0] == a.area.place() && y[0] == b.area.place());
    assert(x[1] == a.confidence.place() && y[1] == b.confidence.place());
    if x[0] != y[0] {
        order::keys_are_compared_from_the_front(x, y, 0);
    } else if x[1] != y[1] {
        order::keys_are_compared_from_the_front(x, y, 1);
    } else {
        assert(x =~= y);
        rank::lemma_lex_order(x, y, x);
    }
}

} // verus!
