//! The work that is done in the background: what it is, when it is due, and what follows it.
use crate::model::RemoteItemId;
use crate::text;
use vstd::prelude::*;

verus! {

/// How many seconds pass before an idle worker looks for work again.
pub const MAINTENANCE_IDLE_POLL_SECONDS: i64 = 2;

/// How many seconds of quiet the review of subjects waits for.
pub const IDENTITY_REVIEW_REFRESH_DEBOUNCE_SECONDS: i64 = 8;

/// How many seconds of quiet the quality model waits for.
pub const QUALITY_MODEL_REFRESH_DEBOUNCE_SECONDS: i64 = 4;

pub const BOOTSTRAP_MAINTENANCE_BATCH: usize = 32;

pub const CORPUS_FACE_SCAN_BATCH: usize = 8;

pub const CORPUS_FACE_RECOGNITION_BATCH: usize = 32;

pub const CORPUS_QUALITY_FEATURE_BATCH: usize = 32;

pub const EXTERNAL_FACE_BACKFILL_BATCH: usize = 32;

/// How many milliseconds a job may take before it is complained about.
pub const SLOW_MAINTENANCE_JOB_MS: u128 = 150;

/// A kind of background work.
#[derive(Debug, Clone, Copy, PartialEq, Eq, Structural)]
pub enum MaintenanceJobKind {
    BootstrapMaintenance,
    CorpusIngest,
    LocalDirectoryRefresh,
    ExternalOutcomeSeal,
    CorpusFaceScanBackfill,
    CorpusFaceRecognitionBackfill,
    CorpusQualityFeatureBackfill,
    ExternalFaceEmbeddingBackfill,
    QualityModelRefresh,
    IdentityReviewRefresh,
}

/// How soon work is taken up.
#[derive(Debug, Clone, Copy, PartialEq, Eq, Structural)]
pub enum MaintenancePriority {
    Cold,
    Warm,
    Hot,
}

/// Work to be done, no sooner than `due_at`.
#[derive(Debug, Clone, Copy, PartialEq, Eq, Structural)]
pub struct MaintenanceSchedule {
    pub kind: MaintenanceJobKind,
    pub priority: MaintenancePriority,
    pub due_at: i64,
}

/// How soon a kind of work is taken up.
pub open spec fn priority_of(kind: MaintenanceJobKind) -> MaintenancePriority {
    match kind {
        MaintenanceJobKind::BootstrapMaintenance => MaintenancePriority::Cold,
        MaintenanceJobKind::QualityModelRefresh => MaintenancePriority::Hot,
        MaintenanceJobKind::IdentityReviewRefresh => MaintenancePriority::Hot,
        _ => MaintenancePriority::Warm,
    }
}

/// How many seconds a kind of work waits for more of its kind.
pub open spec fn debounce_of(kind: MaintenanceJobKind) -> i64 {
    match kind {
        MaintenanceJobKind::QualityModelRefresh => QUALITY_MODEL_REFRESH_DEBOUNCE_SECONDS,
        MaintenanceJobKind::IdentityReviewRefresh => IDENTITY_REVIEW_REFRESH_DEBOUNCE_SECONDS,
        _ => 0,
    }
}

/// When and how soon a kind of work is done that comes up now. The sealing of an outcome is queued
/// together with the outcome, not here.
pub fn schedule(kind: MaintenanceJobKind, now: i64) -> (r: MaintenanceSchedule)
    requires
        kind != MaintenanceJobKind::ExternalOutcomeSeal,
        now <= i64::MAX - 8,
    ensures
        r == (MaintenanceSchedule {
            kind,
            priority: priority_of(kind),
            due_at: (now + debounce_of(kind)) as i64,
        }),
{
    let (priority, delay): (MaintenancePriority, i64) = match kind {
        MaintenanceJobKind::BootstrapMaintenance => (MaintenancePriority::Cold, 0),
        MaintenanceJobKind::QualityModelRefresh => (
            MaintenancePriority::Hot,
            QUALITY_MODEL_REFRESH_DEBOUNCE_SECONDS,
        ),
        MaintenanceJobKind::IdentityReviewRefresh => (
            MaintenancePriority::Hot,
            IDENTITY_REVIEW_REFRESH_DEBOUNCE_SECONDS,
        ),
        _ => (MaintenancePriority::Warm, 0),
    };
    MaintenanceSchedule { kind, priority, due_at: now + delay }
}

/// Whether the refresh of a directory is queued: not while one is pending. A queue that cannot be
/// read counts as empty.
pub fn directory_refresh_wanted(pending: Option<bool>) -> (r: bool)
    ensures
        r == (pending != Some(true)),
{
    match pending {
        Some(true) => false,
        _ => true,
    }
}

/// How many seconds pass before failed work is tried again.
pub open spec fn retry_after(kind: MaintenanceJobKind) -> i64 {
    match kind {
        MaintenanceJobKind::BootstrapMaintenance => 60,
        MaintenanceJobKind::CorpusIngest => 30,
        MaintenanceJobKind::LocalDirectoryRefresh => 20,
        MaintenanceJobKind::ExternalOutcomeSeal => 5,
        MaintenanceJobKind::CorpusFaceScanBackfill => 20,
        MaintenanceJobKind::CorpusFaceRecognitionBackfill => 20,
        MaintenanceJobKind::CorpusQualityFeatureBackfill => 20,
        MaintenanceJobKind::ExternalFaceEmbeddingBackfill => 15,
        MaintenanceJobKind::QualityModelRefresh => 10,
        MaintenanceJobKind::IdentityReviewRefresh => 10,
    }
}

/// How many seconds pass before failed work is tried again.
pub fn maintenance_retry_seconds(kind: MaintenanceJobKind) -> (r: i64)
    ensures
        r == retry_after(kind),
{
    match kind {
        MaintenanceJobKind::BootstrapMaintenance => 60,
        MaintenanceJobKind::CorpusIngest => 30,
        MaintenanceJobKind::LocalDirectoryRefresh => 20,
        MaintenanceJobKind::ExternalOutcomeSeal => 5,
        MaintenanceJobKind::CorpusFaceScanBackfill => 20,
        MaintenanceJobKind::CorpusFaceRecognitionBackfill => 20,
        MaintenanceJobKind::CorpusQualityFeatureBackfill => 20,
        MaintenanceJobKind::ExternalFaceEmbeddingBackfill => 15,
        MaintenanceJobKind::QualityModelRefresh => 10,
        MaintenanceJobKind::IdentityReviewRefresh => 10,
    }
}

/// What a worker does with the work it took up.
#[derive(Debug, PartialEq, Eq)]
pub enum JobWork {
    Bootstrap { phase: String, limit: usize },
    Ingest,
    RefreshDirectory,
    SealOutcome(RemoteItemId),
    ScanFaces { limit: usize },
    RecogniseFaces { limit: usize },
    ExtractFeatures { limit: usize },
    EmbedExternalFaces { limit: usize },
    RefreshModel,
    RefreshReview,
}

/// The key of the work is not the number of an outside image.
#[derive(Debug, Clone, Copy, PartialEq, Eq, Structural)]
pub struct BadItemNumber;

/// What a worker does with work of a kind. Its key names the phase, the source or the image that it
/// is about; an empty phase stands for the first one.
pub fn job_work(kind: MaintenanceJobKind, key: &str, initial_phase: &str) -> (r: Result<
    JobWork,
    BadItemNumber,
>)
    ensures
        match (kind, r) {
            (
                MaintenanceJobKind::BootstrapMaintenance,
                Ok(JobWork::Bootstrap { phase, limit }),
            ) => phase@ == (if key@.len() == 0 {
                initial_phase@
            } else {
                key@
            }) && limit == BOOTSTRAP_MAINTENANCE_BATCH,
            (MaintenanceJobKind::CorpusIngest, Ok(JobWork::Ingest)) => true,
            (MaintenanceJobKind::LocalDirectoryRefresh, Ok(JobWork::RefreshDirectory)) => true,
            (MaintenanceJobKind::ExternalOutcomeSeal, Ok(JobWork::SealOutcome(item_id))) => text::signed(
                key@,
            ) == Some(item_id.0),
            (MaintenanceJobKind::ExternalOutcomeSeal, Err(_)) => text::signed(key@) is None,
            (MaintenanceJobKind::CorpusFaceScanBackfill, Ok(JobWork::ScanFaces { limit })) => limit
                == CORPUS_FACE_SCAN_BATCH,
            (
                MaintenanceJobKind::CorpusFaceRecognitionBackfill,
                Ok(JobWork::RecogniseFaces { limit }),
            ) => limit == CORPUS_FACE_RECOGNITION_BATCH,
            (
                MaintenanceJobKind::CorpusQualityFeatureBackfill,
                Ok(JobWork::ExtractFeatures { limit }),
            ) => limit == CORPUS_QUALITY_FEATURE_BATCH,
            (
                MaintenanceJobKind::ExternalFaceEmbeddingBackfill,
                Ok(JobWork::EmbedExternalFaces { limit }),
            ) => limit == EXTERNAL_FACE_BACKFILL_BATCH,
            (MaintenanceJobKind::QualityModelRefresh, Ok(JobWork::RefreshModel)) => true,
            (MaintenanceJobKind::IdentityReviewRefresh, Ok(JobWork::RefreshReview)) => true,
            _ => false,
        },
{
    match kind {
        MaintenanceJobKind::BootstrapMaintenance => {
            let phase = if key.is_empty() {
                initial_phase.to_owned()
            } else {
                key.to_owned()
            };
            Ok(JobWork::Bootstrap { phase, limit: BOOTSTRAP_MAINTENANCE_BATCH })
        },
        MaintenanceJobKind::CorpusIngest => Ok(JobWork::Ingest),
        MaintenanceJobKind::LocalDirectoryRefresh => Ok(JobWork::RefreshDirectory),
        MaintenanceJobKind::ExternalOutcomeSeal => match text::parse_signed(key) {
            Some(item_id) => Ok(JobWork::SealOutcome(RemoteItemId(item_id))),
            None => Err(BadItemNumber),
        },
        MaintenanceJobKind::CorpusFaceScanBackfill => Ok(
            JobWork::ScanFaces { limit: CORPUS_FACE_SCAN_BATCH },
        ),
        MaintenanceJobKind::CorpusFaceRecognitionBackfill => Ok(
            JobWork::RecogniseFaces { limit: CORPUS_FACE_RECOGNITION_BATCH },
        ),
        MaintenanceJobKind::CorpusQualityFeatureBackfill => Ok(
            JobWork::ExtractFeatures { limit: CORPUS_QUALITY_FEATURE_BATCH },
        ),
        MaintenanceJobKind::ExternalFaceEmbeddingBackfill => Ok(
            JobWork::EmbedExternalFaces { limit: EXTERNAL_FACE_BACKFILL_BATCH },
        ),
        MaintenanceJobKind::QualityModelRefresh => Ok(JobWork::RefreshModel),
        MaintenanceJobKind::IdentityReviewRefresh => Ok(JobWork::RefreshReview),
    }
}

/// What was achieved by work that was done.
#[derive(Debug, Clone, Copy, PartialEq, Eq, Structural)]
pub struct JobProgress {
    /// How many images or faces were worked on.
    pub done: usize,
    /// The start of the application is not complete yet.
    pub phase_left: bool,
}

/// How many images or faces a kind of work goes through at once.
pub open spec fn batch_of(kind: MaintenanceJobKind) -> Option<usize> {
    match kind {
        MaintenanceJobKind::CorpusFaceScanBackfill => Some(CORPUS_FACE_SCAN_BATCH),
        MaintenanceJobKind::CorpusFaceRecognitionBackfill => Some(CORPUS_FACE_RECOGNITION_BATCH),
        MaintenanceJobKind::CorpusQualityFeatureBackfill => Some(CORPUS_QUALITY_FEATURE_BATCH),
        MaintenanceJobKind::ExternalFaceEmbeddingBackfill => Some(EXTERNAL_FACE_BACKFILL_BATCH),
        _ => None,
    }
}

/// The work is queued again: more of it may be left.
pub open spec fn repeats(kind: MaintenanceJobKind, progress: JobProgress) -> bool {
    batch_of(kind) == Some(progress.done) || (kind == MaintenanceJobKind::BootstrapMaintenance
        && progress.phase_left)
}

/// The quality model has to be refreshed after the work.
pub open spec fn unsettles_model(kind: MaintenanceJobKind, progress: JobProgress) -> bool {
    kind == MaintenanceJobKind::IdentityReviewRefresh || (kind
        == MaintenanceJobKind::CorpusQualityFeatureBackfill && progress.done > 0)
}

/// The work that follows work that was done, in this order.
pub open spec fn follow_ups_of(kind: MaintenanceJobKind, progress: JobProgress) -> Seq<
    MaintenanceJobKind,
> {
    (if repeats(kind, progress) {
        seq![kind]
    } else {
        Seq::empty()
    }) + (if unsettles_model(kind, progress) {
        seq![MaintenanceJobKind::QualityModelRefresh]
    } else {
        Seq::empty()
    }) + (if kind == MaintenanceJobKind::CorpusIngest {
        ingest_follow_ups()
    } else {
        Seq::empty()
    })
}

/// The work that follows taking in the images of the collection.
pub open spec fn ingest_follow_ups() -> Seq<MaintenanceJobKind> {
    seq![
        MaintenanceJobKind::CorpusFaceScanBackfill,
        MaintenanceJobKind::CorpusFaceRecognitionBackfill,
        MaintenanceJobKind::CorpusQualityFeatureBackfill,
        MaintenanceJobKind::QualityModelRefresh,
    ]
}

/// The work that follows work that was done, in this order.
pub fn follow_ups(kind: MaintenanceJobKind, progress: JobProgress) -> (r: Vec<MaintenanceJobKind>)
    ensures
        r@ == follow_ups_of(kind, progress),
{
    let mut r: Vec<MaintenanceJobKind> = Vec::new();
    let again = match kind {
        MaintenanceJobKind::BootstrapMaintenance => progress.phase_left,
        MaintenanceJobKind::CorpusFaceScanBackfill => progress.done == CORPUS_FACE_SCAN_BATCH,
        MaintenanceJobKind::CorpusFaceRecognitionBackfill => progress.done
            == CORPUS_FACE_RECOGNITION_BATCH,
        MaintenanceJobKind::CorpusQualityFeatureBackfill => progress.done
            == CORPUS_QUALITY_FEATURE_BATCH,
        MaintenanceJobKind::ExternalFaceEmbeddingBackfill => progress.done
            == EXTERNAL_FACE_BACKFILL_BATCH,
        _ => false,
    };
    if again {
        r.push(kind);
    }
    match kind {
        MaintenanceJobKind::CorpusQualityFeatureBackfill => {
            if progress.done > 0 {
                r.push(MaintenanceJobKind::QualityModelRefresh);
            }
        },
        MaintenanceJobKind::IdentityReviewRefresh => {
            r.push(MaintenanceJobKind::QualityModelRefresh);
        },
        MaintenanceJobKind::CorpusIngest => {
            r.push(MaintenanceJobKind::CorpusFaceScanBackfill);
            r.push(MaintenanceJobKind::CorpusFaceRecognitionBackfill);
            r.push(MaintenanceJobKind::CorpusQualityFeatureBackfill);
            r.push(MaintenanceJobKind::QualityModelRefresh);
        },
        _ => {},
    }
    assert(r@ =~= follow_ups_of(kind, progress));
    r
}

/// What becomes of work that was taken up.
#[derive(Debug, Clone, Copy, PartialEq, Eq, Structural)]
pub enum JobVerdict {
    Completed,
    /// To be tried again at this time.
    Failed { retry_at: i64 },
}

/// What becomes of work that was taken up, and whether it took too long.
pub fn job_verdict(kind: MaintenanceJobKind, succeeded: bool, elapsed_ms: u128, now: i64) -> (r: (
    JobVerdict,
    bool,
))
    requires
        now <= i64::MAX - 60,
    ensures
        r.0 == if succeeded {
            JobVerdict::Completed
        } else {
            (JobVerdict::Failed { retry_at: (now + retry_after(kind)) as i64 })
        },
        r.1 == (elapsed_ms > SLOW_MAINTENANCE_JOB_MS),
{
    let slow = elapsed_ms > SLOW_MAINTENANCE_JOB_MS;
    if succeeded {
        (JobVerdict::Completed, slow)
    } else {
        (JobVerdict::Failed { retry_at: now + maintenance_retry_seconds(kind) }, slow)
    }
}

/// Failed work is tried again, later than it failed and within a minute.
pub proof fn failures_are_tried_again_soon(kind: MaintenanceJobKind, now: int)
    ensures
        now < now + retry_after(kind) <= now + 60,
{
}

/// Work that found less than it could go through at once is not queued again, so that every backlog
/// ends.
pub proof fn backlogs_end(kind: MaintenanceJobKind, progress: JobProgress, batch: usize)
    requires
        batch_of(kind) == Some(batch),
        progress.done < batch,
    ensures
        !follow_ups_of(kind, progress).contains(kind),
{
}

} // verus!
