//! How many outside images are kept ready.
use crate::config::{SourceConfig, UpstreamSource};
use std::collections::HashMap;
use vstd::prelude::*;

verus! {

pub const LOCAL_DIRECTORY_READY_TARGET_PER_STREAM: usize = 8;

pub const LOCAL_DIRECTORY_READY_TARGET_CAP: usize = 64;

pub const REMOTE_READY_TARGET_PER_STREAM: usize = 3;

pub const REMOTE_READY_TARGET_CAP: usize = 96;

/// For how long a source that has enough ready images is not scanned again: ten minutes.
pub const REMOTE_SOURCE_IDLE_SCAN_GRACE_SECONDS: i64 = 600;

/// For how long a source without images is not scanned again: thirty minutes.
pub const REMOTE_SOURCE_EMPTY_SCAN_BACKOFF_SECONDS: i64 = 1800;

/// How many ready images are kept of a source that was scanned a short while ago.
pub const REMOTE_SOURCE_RECENT_READY_CAP: usize = 12;

/// How many images of a source are kept ready.
#[derive(Debug, Clone, Copy, PartialEq, Eq, Structural)]
pub struct ReadyTargetProfile {
    pub per_stream: usize,
    pub cap: usize,
}

/// How many images are wanted of `stream_count` streams: some of each, at most `cap` in all, and
/// always enough for one stream.
pub open spec fn wanted(profile: ReadyTargetProfile, stream_count: int) -> int {
    let all = stream_count * profile.per_stream;
    let capped = if all < profile.cap {
        all
    } else {
        profile.cap as int
    };
    if capped < profile.per_stream {
        profile.per_stream as int
    } else {
        capped
    }
}

impl ReadyTargetProfile {
    /// How many images of a source are kept ready.
    pub fn for_source(source: &SourceConfig) -> (r: Self)
        ensures
            r == match source.upstream {
                UpstreamSource::LocalDirectory(_) => ReadyTargetProfile {
                    per_stream: LOCAL_DIRECTORY_READY_TARGET_PER_STREAM,
                    cap: LOCAL_DIRECTORY_READY_TARGET_CAP,
                },
                UpstreamSource::FourChanBoard(_) => ReadyTargetProfile {
                    per_stream: REMOTE_READY_TARGET_PER_STREAM,
                    cap: REMOTE_READY_TARGET_CAP,
                },
            },
    {
        if source.local_directory().is_some() {
            ReadyTargetProfile {
                per_stream: LOCAL_DIRECTORY_READY_TARGET_PER_STREAM,
                cap: LOCAL_DIRECTORY_READY_TARGET_CAP,
            }
        } else {
            ReadyTargetProfile::for_remote()
        }
    }

    /// How many images of a source behind a network are kept ready.
    pub fn for_remote() -> (r: Self)
        ensures
            r == (ReadyTargetProfile {
                per_stream: REMOTE_READY_TARGET_PER_STREAM,
                cap: REMOTE_READY_TARGET_CAP,
            }),
    {
        ReadyTargetProfile {
            per_stream: REMOTE_READY_TARGET_PER_STREAM,
            cap: REMOTE_READY_TARGET_CAP,
        }
    }

    /// From how many ready images on a source need not be scanned.
    pub fn idle_floor(self) -> (r: usize)
        ensures
            r == self.per_stream,
    {
        self.per_stream
    }

    /// How many images are wanted of `stream_count` streams.
    pub fn target_total(self, stream_count: usize) -> (r: usize)
        ensures
            r == wanted(self, stream_count as int),
    {
        proof {
            assert(stream_count as int * self.per_stream as int <= 0xffff_ffff_ffff_ffff
                * 0xffff_ffff_ffff_ffff) by (nonlinear_arith)
                requires
                    0 <= stream_count <= 0xffff_ffff_ffff_ffff,
                    0 <= self.per_stream <= 0xffff_ffff_ffff_ffff,
            ;
        }
        let all: u128 = stream_count as u128 * self.per_stream as u128;
        let capped: usize = if all < self.cap as u128 {
            all as usize
        } else {
            self.cap
        };
        if capped < self.per_stream {
            self.per_stream
        } else {
            capped
        }
    }

    /// The same with a lower cap, but never below what is wanted of one stream.
    pub fn capped(self, cap: usize) -> (r: Self)
        ensures
            r.per_stream == self.per_stream,
            r.cap == {
                let lower = if self.cap < cap {
                    self.cap
                } else {
                    cap
                };
                if lower < self.per_stream {
                    self.per_stream
                } else {
                    lower
                }
            },
    {
        let lower: usize = if self.cap < cap {
            self.cap
        } else {
            cap
        };
        ReadyTargetProfile {
            per_stream: self.per_stream,
            cap: if lower < self.per_stream {
                self.per_stream
            } else {
                lower
            },
        }
    }
}

/// The images of one source that are ready.
#[derive(Debug)]
pub struct SourceReadyFrontier {
    pub total_ready: usize,
    pub ready_by_stream: HashMap<i64, usize>,
    pub target_total: usize,
    pub target_per_stream: usize,
}

impl SourceReadyFrontier {
    /// How many images of a stream are ready.
    pub open spec fn ready_of(self, stream_id: i64) -> usize {
        if self.ready_by_stream@.contains_key(stream_id) {
            self.ready_by_stream@[stream_id]
        } else {
            0
        }
    }

    /// The ready images of a source with `stream_count` streams.
    pub fn new(
        total_ready: usize,
        ready_by_stream: HashMap<i64, usize>,
        stream_count: usize,
        profile: ReadyTargetProfile,
    ) -> (r: Self)
        ensures
            r.total_ready == total_ready,
            r.ready_by_stream == ready_by_stream,
            r.target_total == wanted(profile, stream_count as int),
            r.target_per_stream == profile.per_stream,
    {
        let target_total = profile.target_total(stream_count);
        SourceReadyFrontier {
            total_ready,
            ready_by_stream,
            target_total,
            target_per_stream: profile.per_stream,
        }
    }

    /// Whether as many images are ready as are wanted.
    pub fn source_saturated(&self) -> (r: bool)
        ensures
            r == (self.total_ready >= self.target_total),
    {
        self.total_ready >= self.target_total
    }

    /// Whether the source need not be scanned.
    pub fn source_idle_warm(&self) -> (r: bool)
        ensures
            r == (self.total_ready >= self.target_per_stream),
    {
        self.total_ready >= self.target_per_stream
    }

    /// Whether as many images of a stream are ready as are wanted of one.
    pub fn stream_saturated(&self, stream_id: i64) -> (r: bool)
        ensures
            r == (self.ready_of(stream_id) >= self.target_per_stream),
    {
        self.ready_in_stream(stream_id) >= self.target_per_stream
    }

    /// How many images of a stream are ready.
    pub fn ready_in_stream(&self, stream_id: i64) -> (r: usize)
        ensures
            r == self.ready_of(stream_id),
    {
        broadcast use vstd::std_specs::hash::group_hash_axioms;

        match self.ready_by_stream.get(&stream_id) {
            None => 0,
            Some(count) => *count,
        }
    }

    /// Notes one more ready image of a stream.
    pub fn note_ready(&mut self, stream_id: i64)
        requires
            old(self).total_ready < usize::MAX,
            old(self).ready_of(stream_id) < usize::MAX,
        ensures
            final(self).total_ready == old(self).total_ready + 1,
            final(self).ready_by_stream@ == old(self).ready_by_stream@.insert(
                stream_id,
                (old(self).ready_of(stream_id) + 1) as usize,
            ),
            final(self).target_total == old(self).target_total,
            final(self).target_per_stream == old(self).target_per_stream,
    {
        broadcast use vstd::std_specs::hash::group_hash_axioms;

        let count = self.ready_in_stream(stream_id);
        self.total_ready = self.total_ready + 1;
        let _before = self.ready_by_stream.insert(stream_id, count + 1);
    }
}

/// At least as many images are wanted as of one stream, and no more than the cap, or than of one
/// stream where the cap leaves less room. More streams never make fewer images wanted.
pub proof fn wanted_is_bounded(profile: ReadyTargetProfile, fewer: int, more: int)
    requires
        0 <= fewer <= more,
    ensures
        profile.per_stream <= wanted(profile, fewer),
        wanted(profile, fewer) <= if profile.cap < profile.per_stream {
            profile.per_stream
        } else {
            profile.cap
        },
        wanted(profile, fewer) <= wanted(profile, more),
{
    assert(fewer * profile.per_stream <= more * profile.per_stream) by (nonlinear_arith)
        requires
            0 <= fewer <= more,
            profile.per_stream >= 0,
    ;
}

/// Ready images of one stream do not count for another.
pub proof fn streams_are_counted_apart(frontier: SourceReadyFrontier, after: SourceReadyFrontier, noted: i64, other: i64)
    requires
        after.ready_by_stream@ == frontier.ready_by_stream@.insert(
            noted,
            (frontier.ready_of(noted) + 1) as usize,
        ),
        frontier.ready_of(noted) < usize::MAX,
        noted != other,
    ensures
        after.ready_of(noted) == frontier.ready_of(noted) + 1,
        after.ready_of(other) == frontier.ready_of(other),
{
}

} // verus!
