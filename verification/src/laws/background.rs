//! What is done in the background, and when.
use crate::gate;
use crate::lifecycle;
use crate::lifecycle::{PreparedFace, RefreshStep};
use crate::maintenance;
use crate::maintenance::{JobProgress, MaintenanceJobKind};
use crate::ready_frontier;
use crate::ready_frontier::{ReadyTargetProfile, SourceReadyFrontier};
use crate::scalar::Scalar;
use vstd::prelude::*;

verus! {

/// The model and the review are refreshed before all else and wait for four and eight seconds of quiet;
/// nothing else waits. The start of the application is completed behind all else.
pub proof fn refreshes_come_first_and_wait(kind: MaintenanceJobKind)
    ensures
        maintenance::priority_of(kind) is Hot <==> kind is QualityModelRefresh || kind
            is IdentityReviewRefresh,
        maintenance::priority_of(kind) is Cold <==> kind is BootstrapMaintenance,
        kind is QualityModelRefresh <==> maintenance::debounce_of(kind) == 4,
        kind is IdentityReviewRefresh <==> maintenance::debounce_of(kind) == 8,
        !(kind is QualityModelRefresh) && !(kind is IdentityReviewRefresh) ==> maintenance::debounce_of(
            kind,
        ) == 0,
{
}

/// Failed work is tried again: an outcome is sealed soonest, the model and the review are refreshed
/// sooner than faces and features are looked for, and the collection and the start come last.
pub proof fn failed_work_is_tried_again_by_urgency(kind: MaintenanceJobKind)
    ensures
        maintenance::retry_after(kind) == 5 <==> kind is ExternalOutcomeSeal,
        maintenance::retry_after(kind) == 10 <==> kind is QualityModelRefresh || kind
            is IdentityReviewRefresh,
        maintenance::retry_after(kind) == 15 <==> kind is ExternalFaceEmbeddingBackfill,
        maintenance::retry_after(kind) == 20 <==> kind is LocalDirectoryRefresh || kind
            is CorpusFaceScanBackfill || kind is CorpusFaceRecognitionBackfill || kind
            is CorpusQualityFeatureBackfill,
        maintenance::retry_after(kind) == 30 <==> kind is CorpusIngest,
        maintenance::retry_after(kind) == 60 <==> kind is BootstrapMaintenance,
{
}

/// Images are gone through for faces eight at a time, all else that comes in batches thirty-two at a
/// time.
pub proof fn batches_have_their_sizes(kind: MaintenanceJobKind)
    ensures
        maintenance::batch_of(kind) == Some(8usize) <==> kind is CorpusFaceScanBackfill,
        maintenance::batch_of(kind) == Some(32usize) <==> kind is CorpusFaceRecognitionBackfill || kind
            is CorpusQualityFeatureBackfill || kind is ExternalFaceEmbeddingBackfill,
        maintenance::batch_of(kind) is None <==> !(kind is CorpusFaceScanBackfill) && !(kind
            is CorpusFaceRecognitionBackfill) && !(kind is CorpusQualityFeatureBackfill) && !(kind
            is ExternalFaceEmbeddingBackfill),
{
}

/// Work is queued again where it went through a full batch, or where the start of the application is not
/// complete. The model is refreshed after the review was and after features were found. Taking in the
/// collection is followed by looking for faces and features and by refreshing the model, and by nothing
/// else.
pub proof fn work_is_followed_by_what_it_calls_for(kind: MaintenanceJobKind, progress: JobProgress)
    ensures
        ({
            let next = maintenance::follow_ups_of(kind, progress);
            let full = (kind is CorpusFaceScanBackfill && progress.done == 8) || ((kind
                is CorpusFaceRecognitionBackfill || kind is CorpusQualityFeatureBackfill || kind
                is ExternalFaceEmbeddingBackfill) && progress.done == 32);
            &&& full || (kind is BootstrapMaintenance && progress.phase_left) ==> next.len() > 0 && next[0]
                == kind
            &&& !full && !(kind is BootstrapMaintenance && progress.phase_left) && !(kind is CorpusIngest)
                && !(kind is IdentityReviewRefresh) && !(kind is CorpusQualityFeatureBackfill
                && progress.done > 0) ==> next.len() == 0
            &&& kind is IdentityReviewRefresh ==> next == seq![MaintenanceJobKind::QualityModelRefresh]
            &&& kind is CorpusQualityFeatureBackfill && progress.done > 0 ==> next.len() > 0
                && next.last() is QualityModelRefresh && (next.len() == 2 <==> full)
            &&& kind is CorpusIngest ==> next == seq![
                MaintenanceJobKind::CorpusFaceScanBackfill,
                MaintenanceJobKind::CorpusFaceRecognitionBackfill,
                MaintenanceJobKind::CorpusQualityFeatureBackfill,
                MaintenanceJobKind::QualityModelRefresh,
            ]
        }),
{
    let next = maintenance::follow_ups_of(kind, progress);
    batches_have_their_sizes(kind);
    if kind is IdentityReviewRefresh {
        assert(next =~= seq![MaintenanceJobKind::QualityModelRefresh]);
    }
    if kind is CorpusIngest {
        assert(next =~= maintenance::ingest_follow_ups());
    }
}

/// A name is put behind a directory with one separator between them, and with none where the directory
/// is empty or ends in one.
pub proof fn names_are_put_behind_directories(dir: Seq<char>, name: Seq<char>)
    ensures
        dir.len() == 0 ==> lifecycle::joined(dir, name) == name,
        dir.len() > 0 && dir.last() == '/' ==> lifecycle::joined(dir, name) == dir + name,
        dir.len() > 0 && dir.last() != '/' ==> lifecycle::joined(dir, name) == dir + seq!['/'] + name,
{
    reveal_strlit("/");
    if dir.len() == 0 {
        assert(dir + name =~= name);
    }
    assert("/"@ =~= seq!['/']);
}

/// A face is large enough where each of its sides that is a number is, and one of them is a number.
pub proof fn faces_are_large_by_their_shorter_side(width: Scalar, height: Scalar, min_side: Scalar)
    ensures
        lifecycle::large_enough(width, height, min_side) <==> {
            &&& !min_side.nan()
            &&& !width.nan() || !height.nan()
            &&& !width.nan() ==> width.order() >= min_side.order()
            &&& !height.nan() ==> height.order() >= min_side.order()
        },
{
}

/// As many faces are counted as are written down with an embedding.
pub proof fn embedded_faces_are_counted(faces: Seq<PreparedFace>)
    ensures
        lifecycle::embedded_below(faces, faces.len() as int) == faces.filter(
            |face: PreparedFace| !face.tombstoned && face.embedded,
        ).len(),
    decreases faces.len(),
{
    reveal(Seq::filter);
    if faces.len() > 0 {
        let before = faces.drop_last();
        embedded_faces_are_counted(before);
        lemma_embedded_prefix(before, faces, before.len() as int);
    }
}

proof fn lemma_embedded_prefix(a: Seq<PreparedFace>, b: Seq<PreparedFace>, n: int)
    requires
        n <= a.len(),
        n <= b.len(),
        forall|i: int| 0 <= i < n ==> #[trigger] a[i] == b[i],
    ensures
        lifecycle::embedded_below(a, n) == lifecycle::embedded_below(b, n),
    decreases n,
{
    if n > 0 {
        lemma_embedded_prefix(a, b, n - 1);
        assert(a[n - 1] == b[n - 1]);
    }
}

/// A refresh is done once it was rebuilt or committed; one that was overtaken is tried again up to the
/// fourth time and put off then; what is done or put off stays so.
pub proof fn refreshes_go_on_until_they_are_done(n: u8, committed: bool, step: RefreshStep)
    ensures
        lifecycle::refreshed(RefreshStep::Rebuild, committed) is Done,
        lifecycle::refreshed(RefreshStep::Attempt(n), true) is Done,
        n < 4 ==> lifecycle::refreshed(RefreshStep::Attempt(n), false) == RefreshStep::Attempt(
            (n + 1) as u8,
        ),
        n >= 4 ==> lifecycle::refreshed(RefreshStep::Attempt(n), false) is Requeue,
        step is Done || step is Requeue ==> lifecycle::refreshed(step, committed) == step,
{
}

/// So many images are wanted of each stream; in all no more than the cap, but never fewer than of one
/// stream.
pub proof fn some_images_of_each_stream_are_wanted(profile: ReadyTargetProfile, streams: int)
    requires
        0 <= streams,
    ensures
        ({
            let all = streams * profile.per_stream;
            let r = ready_frontier::wanted(profile, streams);
            &&& profile.per_stream <= all <= profile.cap ==> r == all
            &&& all > profile.cap && profile.cap >= profile.per_stream ==> r == profile.cap
            &&& all < profile.per_stream || profile.cap < profile.per_stream ==> r == profile.per_stream
        }),
{
}

/// A stream of which nothing was noted has no ready images.
pub proof fn unknown_streams_have_nothing_ready(frontier: SourceReadyFrontier, stream_id: i64)
    ensures
        !frontier.ready_by_stream@.contains_key(stream_id) ==> frontier.ready_of(stream_id) == 0,
        frontier.ready_by_stream@.contains_key(stream_id) ==> frontier.ready_of(stream_id)
            == frontier.ready_by_stream@[stream_id],
{
}

/// Writes that are known to be large may take a tenth of a second, all others half of that.
pub proof fn large_writes_may_take_longer(label: Seq<char>)
    ensures
        label == "upsert_external_stream_batch"@ || label == "bootstrap_maintenance_batch"@
            ==> gate::slow_threshold(label) == 100,
        label != "upsert_external_stream_batch"@ && label != "bootstrap_maintenance_batch"@
            ==> gate::slow_threshold(label) == 50,
{
}

} // verus!
