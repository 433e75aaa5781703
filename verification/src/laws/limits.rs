//! How much is remembered, shown and kept.
use crate::arena_session;
use crate::asset_domain;
use crate::cache;
use crate::explore;
use crate::facemash;
use crate::gate;
use crate::identities;
use crate::lifecycle;
use crate::maintenance;
use crate::orchestration;
use crate::pairing;
use crate::ready_frontier;
use crate::remote_pick;
use vstd::prelude::*;

verus! {

/// Six turns are prepared behind the one on screen, and five hundred and twelve commands are remembered. A
/// sitting goes on where no more than ten minutes have passed.
pub proof fn sessions_have_room_for_so_much()
    ensures
        arena_session::ARENA_PIPELINE_LIMIT == 6,
        arena_session::ARENA_COMMAND_REPLAY_LIMIT == 512,
        lifecycle::SESSION_SNAP_WINDOW_SECONDS == 600,
{
}

/// What was shown of late is left out or shown less: fourteen outside images, eight and sixteen threads,
/// six sources, eighteen triads, forty-eight pairs of subjects, and sixteen subjects and faces.
pub proof fn so_much_counts_as_shown_lately()
    ensures
        remote_pick::EXTERNAL_RECENT_EXCLUDE == 14,
        remote_pick::EXTERNAL_STREAM_RECENT_EXCLUDE == 8,
        remote_pick::EXTERNAL_STREAM_HARD_EXCLUDE == 16,
        remote_pick::EXTERNAL_SOURCE_RECENT_EXCLUDE_CAP == 6,
        explore::EXPLORE_RECENT_EXCLUDE == 18,
        facemash::FACEMASH_RECENT_PAIR_EXCLUDE == 48,
        facemash::FACEMASH_RECENT_FACE_EXCLUDE == 16,
{
}

/// Eleven images are looked for around the first of a triad, fourteen are shown around the one that is
/// looked at, a dozen look-alikes are listed, and four thousand and ninety-six subjects are asked for.
pub proof fn so_many_are_looked_for()
    ensures
        explore::EXPLORE_TRIAD_REACH == 11,
        explore::EXPLORE_SELECTION_NEIGHBORS == 14,
        pairing::CLUSTER_LIMIT == 12,
        facemash::FACEMASH_CANDIDATE_LIMIT == 4096,
        facemash::FACEMASH_RETRAIN_INTERVAL == 10,
        asset_domain::CONFIDENCE_THRESHOLD == 0x3f40_0000,
{
}

/// Of a local directory eight images of each folder are kept ready and sixty-four in all, of another
/// source three of each thread and ninety-six in all, a dozen where it was in use of late.
pub proof fn so_many_images_are_kept_ready()
    ensures
        ready_frontier::LOCAL_DIRECTORY_READY_TARGET_PER_STREAM == 8,
        ready_frontier::LOCAL_DIRECTORY_READY_TARGET_CAP == 64,
        ready_frontier::REMOTE_READY_TARGET_PER_STREAM == 3,
        ready_frontier::REMOTE_READY_TARGET_CAP == 96,
        ready_frontier::REMOTE_SOURCE_RECENT_READY_CAP == 12,
        ready_frontier::REMOTE_SOURCE_IDLE_SCAN_GRACE_SECONDS == 600,
        ready_frontier::REMOTE_SOURCE_EMPTY_SCAN_BACKOFF_SECONDS == 1800,
{
}

/// Each cache holds a gibibyte unless that is set, and is looked at every minute; settings are looked at
/// every two seconds, sources every twenty, and an idle worker looks for work every two.
pub proof fn things_are_looked_at_so_often()
    ensures
        cache::DEFAULT_RENDITION_CACHE_MAX_BYTES == 1_073_741_824,
        cache::DEFAULT_SOURCE_CACHE_MAX_BYTES == 1_073_741_824,
        cache::DEFAULT_CACHE_PRUNE_INTERVAL_SECONDS == 60,
        orchestration::CONFIG_RELOAD_PULSE_SECONDS == 2,
        orchestration::EXTERNAL_SCAN_PULSE_SECONDS == 20,
        maintenance::MAINTENANCE_IDLE_POLL_SECONDS == 2,
        maintenance::BOOTSTRAP_MAINTENANCE_BATCH == 32,
{
}

/// Waiting for the write lock and holding it are complained about from a fifth of a second on, waiting
/// again every second, and background work that takes more than 150 milliseconds.
pub proof fn slowness_is_complained_about_from_here_on()
    ensures
        gate::DB_WRITE_GATE_WAIT_WARN_MS == 200,
        gate::DB_WRITE_GATE_WAIT_LOG_STEP_MS == 1000,
        gate::DB_WRITE_GATE_HOLD_WARN_MS == 200,
        maintenance::SLOW_MAINTENANCE_JOB_MS == 150,
{
}

/// Handles are marked by an `A` for one subject and a `P` for two, and hold sixteen bytes of the hash.
pub proof fn handles_are_marked_by_letters()
    ensures
        identities::IDENTITY_HANDLE_TAG_ANCHOR == 65,
        identities::IDENTITY_HANDLE_TAG_PAIR == 80,
        identities::IDENTITY_HANDLE_MAC_LEN == 16,
{
}

} // verus!
