use picmash::arena_session::SamplerInvalidation;
use picmash::config::AppConfig;
use picmash::duel::QualityFormalVersion;
use picmash::gate::{
    hold_was_long, slow_writer_threshold_ms, wait_step, wait_was_long, writer_fault_message,
    DbWriteGate, DbWriteGateOwner, WaitStep, WriterFault,
};
use picmash::lifecycle::{
    begin_refresh, boot_quality_model, continue_refresh, face_is_large_enough, face_pass, join,
    AppBootPaths, FaceScanBatch, FaceScanStep, PreparedFace, RefreshStep,
};
use picmash::maintenance::{
    directory_refresh_wanted, follow_ups, job_verdict, job_work, maintenance_retry_seconds,
    schedule, JobProgress, JobVerdict, JobWork, MaintenanceJobKind, MaintenancePriority,
};
use picmash::model::RemoteItemId;
use picmash::orchestration::{
    dedup_radius_invalidation, external_probability_invalidation, harvest_order,
    source_config_for_key, source_scan, sum_counts, ConfigReloadState, ReloadStep, ScannedSource,
    SourceCounts, SourceScan,
};
use picmash::scalar::Scalar;

fn scalar(value: f32) -> Scalar {
    Scalar { bits: value.to_bits() }
}

fn owner(thread_name: Option<&str>) -> DbWriteGateOwner {
    DbWriteGateOwner {
        file: "app.rs".to_owned(),
        line: 12,
        thread_name: thread_name.map(|name| name.to_owned()),
    }
}

#[test]
fn work_is_scheduled_by_kind() {
    let model = schedule(MaintenanceJobKind::QualityModelRefresh, 100);
    assert_eq!((model.priority, model.due_at), (MaintenancePriority::Hot, 104));
    let review = schedule(MaintenanceJobKind::IdentityReviewRefresh, 100);
    assert_eq!((review.priority, review.due_at), (MaintenancePriority::Hot, 108));
    let start = schedule(MaintenanceJobKind::BootstrapMaintenance, 100);
    assert_eq!((start.priority, start.due_at), (MaintenancePriority::Cold, 100));
    let ingest = schedule(MaintenanceJobKind::CorpusIngest, 100);
    assert_eq!((ingest.priority, ingest.due_at), (MaintenancePriority::Warm, 100));
    assert!(directory_refresh_wanted(None) && directory_refresh_wanted(Some(false)));
    assert!(!directory_refresh_wanted(Some(true)));
}

#[test]
fn keys_say_what_the_work_is() {
    assert_eq!(
        job_work(MaintenanceJobKind::ExternalOutcomeSeal, "-12", "first"),
        Ok(JobWork::SealOutcome(RemoteItemId(-12)))
    );
    assert!(job_work(MaintenanceJobKind::ExternalOutcomeSeal, "twelve", "first").is_err());
    assert_eq!(
        job_work(MaintenanceJobKind::BootstrapMaintenance, "", "first"),
        Ok(JobWork::Bootstrap { phase: "first".to_owned(), limit: 32 })
    );
    assert_eq!(
        job_work(MaintenanceJobKind::BootstrapMaintenance, "second", "first"),
        Ok(JobWork::Bootstrap { phase: "second".to_owned(), limit: 32 })
    );
    assert_eq!(
        job_work(MaintenanceJobKind::CorpusFaceScanBackfill, "", "first"),
        Ok(JobWork::ScanFaces { limit: 8 })
    );
}

#[test]
fn full_batches_are_followed_by_another() {
    let done = |done| JobProgress { done, phase_left: false };
    assert_eq!(
        follow_ups(MaintenanceJobKind::CorpusFaceScanBackfill, done(8)),
        vec![MaintenanceJobKind::CorpusFaceScanBackfill]
    );
    assert!(follow_ups(MaintenanceJobKind::CorpusFaceScanBackfill, done(7)).is_empty());
    assert_eq!(
        follow_ups(MaintenanceJobKind::CorpusQualityFeatureBackfill, done(32)),
        vec![
            MaintenanceJobKind::CorpusQualityFeatureBackfill,
            MaintenanceJobKind::QualityModelRefresh,
        ]
    );
    assert!(follow_ups(MaintenanceJobKind::CorpusQualityFeatureBackfill, done(0)).is_empty());
    assert_eq!(follow_ups(MaintenanceJobKind::CorpusIngest, done(0)).len(), 4);
    assert_eq!(
        follow_ups(
            MaintenanceJobKind::BootstrapMaintenance,
            JobProgress { done: 0, phase_left: true }
        ),
        vec![MaintenanceJobKind::BootstrapMaintenance]
    );
}

#[test]
fn failed_work_is_tried_again() {
    assert_eq!(maintenance_retry_seconds(MaintenanceJobKind::ExternalOutcomeSeal), 5);
    assert_eq!(
        job_verdict(MaintenanceJobKind::CorpusIngest, false, 151, 1000),
        (JobVerdict::Failed { retry_at: 1030 }, true)
    );
    assert_eq!(
        job_verdict(MaintenanceJobKind::CorpusIngest, true, 150, 1000),
        (JobVerdict::Completed, false)
    );
}

#[test]
fn one_writer_at_a_time() {
    let mut gate = DbWriteGate::new();
    assert!(gate.try_enter(owner(Some("worker"))));
    assert!(!gate.try_enter(owner(None)));
    let held = gate.leave().expect("held");
    assert_eq!(held.held_description(250), "app.rs:12 on thread worker for 250 ms");
    assert!(gate.leave().is_none());
    assert!(gate.try_enter(owner(None)));
    assert_eq!(owner(None).held_description(0), "app.rs:12 for 0 ms");
}

#[test]
fn waiting_is_complained_about_every_second() {
    assert_eq!(wait_step(0, 200), WaitStep::WaitFor(200));
    assert_eq!(wait_step(200, 200), WaitStep::Complain { next_log_ms: 1200 });
    assert_eq!(wait_step(0, u128::MAX - 1000), WaitStep::WaitFor(u64::MAX));
    assert!(wait_was_long(200) && !wait_was_long(199));
    assert!(hold_was_long(200) && !hold_was_long(199));
    assert_eq!(slow_writer_threshold_ms("upsert_external_stream_batch"), 100);
    assert_eq!(slow_writer_threshold_ms("bootstrap_maintenance_batch"), 100);
    assert_eq!(slow_writer_threshold_ms("touch_session"), 50);
}

#[test]
fn faults_of_the_writer_are_told_apart() {
    assert_eq!(writer_fault_message("x", &WriterFault::NotSent), "sending writer command `x`");
    assert_eq!(
        writer_fault_message("x", &WriterFault::WrongReply),
        "writer reply type mismatch for x"
    );
    assert_eq!(
        writer_fault_message("x", &WriterFault::Failed("disk full".to_owned())),
        "writer command `x` failed: disk full"
    );
}

#[test]
fn paths_of_the_application() {
    let paths = AppBootPaths::resolve("/data", "/cache/");
    assert_eq!(paths.db_path, "/data/picmash.sqlite3");
    assert_eq!(paths.model_cache_root, "/cache/");
    assert_eq!(paths.cache_root, "/cache/renditions");
    assert_eq!(paths.source_cache_root, "/cache/sources");
    assert_eq!(join("", "a"), "a");
}

#[test]
fn refreshes_are_tried_four_times() {
    let v3 = QualityFormalVersion::HierarchicalPerturbativeV3;
    let mut step = begin_refresh(v3);
    for attempt in 1..=4 {
        assert_eq!(step, RefreshStep::Attempt(attempt));
        step = continue_refresh(step, false);
    }
    assert_eq!(step, RefreshStep::Requeue);
    assert_eq!(continue_refresh(RefreshStep::Attempt(3), true), RefreshStep::Done);
    assert_eq!(begin_refresh(QualityFormalVersion::HierarchicalGaussianV1), RefreshStep::Rebuild);
    assert_eq!(continue_refresh(RefreshStep::Rebuild, false), RefreshStep::Done);
    assert_eq!(boot_quality_model(QualityFormalVersion::LegacyIndependentV1, v3), (v3, true));
    assert_eq!(boot_quality_model(v3, v3), (v3, false));
}

#[test]
fn scans_of_faces_stop_at_the_limit() {
    let mut batch = FaceScanBatch::begin(1);
    assert_eq!(batch.next(true), FaceScanStep::Skip);
    assert_eq!(batch.next(false), FaceScanStep::Scan);
    batch.note(3, 2);
    assert_eq!(batch.next(false), FaceScanStep::Stop);
    assert_eq!((batch.scanned, batch.detected, batch.embedded), (1, 3, 2));
    let face = |tombstoned, embedded, has_crop| PreparedFace { tombstoned, embedded, has_crop };
    let faces = vec![face(false, true, false), face(true, true, true), face(false, false, true)];
    let pass = face_pass(&faces, false);
    assert_eq!(pass.kept, vec![0, 2]);
    assert_eq!(pass.crops, vec![2]);
    assert_eq!(pass.embedded_count, 1);
    assert!(face_pass(&faces, true).kept.is_empty());
    assert!(face_is_large_enough(scalar(80.0), scalar(90.0), scalar(80.0)));
    assert!(!face_is_large_enough(scalar(79.0), scalar(90.0), scalar(80.0)));
}

#[test]
fn settings_of_ones_own_are_not_read_back() {
    let raw = "[arena]\n";
    let digest = blake3::hash(raw.as_bytes()).to_hex().to_string();
    let mut state = ConfigReloadState::forge(digest.clone());
    assert!(matches!(state.look(raw), ReloadStep::Unchanged));
    let other = match state.look("[runtime]\n") {
        ReloadStep::Read(found) => found,
        step => panic!("{step:?}"),
    };
    assert!(state.reject(other.clone()));
    assert!(!state.reject(other.clone()));
    assert!(!state.should_warn_rejected(&other));
    assert!(state.is_live_digest(&digest));
    state.note_applied(other.clone());
    assert!(state.should_warn_rejected(&digest));
    assert!(matches!(state.look("[runtime]\n"), ReloadStep::Unchanged));
    state.note_rejected(digest.clone());
    assert!(!state.should_warn_rejected(&digest));
}

#[test]
fn directories_wait_for_background_work() {
    assert_eq!(source_scan(false, false, true, true, false), SourceScan::Defer);
    assert_eq!(source_scan(false, true, false, true, false), SourceScan::Defer);
    assert_eq!(source_scan(true, false, false, true, true), SourceScan::Scan);
    assert_eq!(source_scan(false, false, false, false, false), SourceScan::Skip);
    assert_eq!(source_scan(false, false, true, false, true), SourceScan::Skip);
    assert_eq!(source_scan(false, true, true, false, true), SourceScan::Scan);
    let source = |key: &str, local_directory, streams| ScannedSource {
        source_key: key.to_owned(),
        local_directory,
        streams,
    };
    let order = harvest_order(&vec![
        source("b", false, Some(2)),
        source("a", false, None),
        source("d", true, Some(9)),
        source("c", false, Some(2)),
        source("e", false, Some(1)),
    ]);
    assert_eq!(order, vec![2, 4, 0, 3, 1]);
}

#[test]
fn counts_and_changes() {
    let counts = |a, b, c| SourceCounts { active_streams: a, blocked_streams: b, cached_items: c };
    let sum = sum_counts(&vec![counts(1, 2, 3), counts(10, 20, 30)]);
    assert_eq!((sum.active_streams, sum.blocked_streams, sum.cached_items), (11, 22, 33));
    let sources = AppConfig::default().sources;
    assert_eq!(source_config_for_key(&sources, "4chan:s"), Some(0));
    assert_eq!(source_config_for_key(&sources, "4chan:wg"), None);
    assert_eq!(
        external_probability_invalidation(scalar(0.1), scalar(0.2)),
        SamplerInvalidation::Eventual
    );
    assert_eq!(
        external_probability_invalidation(scalar(0.1), scalar(0.0)),
        SamplerInvalidation::Immediate
    );
    assert_eq!(dedup_radius_invalidation(scalar(0.0)), SamplerInvalidation::Eventual);
    assert_eq!(dedup_radius_invalidation(scalar(0.1)), SamplerInvalidation::Immediate);
}
