//! How the settings are reloaded while the application runs, and which sources are scanned.
use crate::arena_session::SamplerInvalidation;
use crate::config;
use crate::config::{AppConfig, ConfigError, RootProbe, SourceConfig};
use crate::digest;
use crate::pairing;
use crate::rank;
use crate::scalar::Scalar;
use crate::text;
use vstd::prelude::*;
use vstd::string::StringSliceAdditionalSpecFns;

verus! {

/// How many seconds pass between two looks at the settings.
pub const CONFIG_RELOAD_PULSE_SECONDS: i64 = 2;

/// How many seconds pass between two looks at the sources.
pub const EXTERNAL_SCAN_PULSE_SECONDS: i64 = 20;

/// Which settings are in force, and which were refused last, both by the digest of their text.
#[derive(Debug)]
pub struct ConfigReloadState {
    pub live_digest: String,
    pub warned_rejected_digest: Option<String>,
}

/// What a look at the settings finds.
#[derive(Debug)]
pub enum ReloadStep {
    /// The settings are those in force.
    Unchanged,
    /// The text has to be read: its digest.
    Read(String),
}

impl ConfigReloadState {
    /// The settings with this digest are in force.
    pub fn forge(live_digest: String) -> (r: Self)
        ensures
            r.live_digest == live_digest,
            r.warned_rejected_digest is None,
    {
        ConfigReloadState { live_digest, warned_rejected_digest: None }
    }

    /// Whether the settings with this digest are in force.
    pub fn is_live_digest(&self, digest: &str) -> (r: bool)
        ensures
            r == (self.live_digest@ == digest@),
    {
        text::same_text(self.live_digest.as_str(), digest)
    }

    /// The settings with this digest were not refused last.
    pub open spec fn warns(self, digest: Seq<char>) -> bool {
        match self.warned_rejected_digest {
            None => true,
            Some(warned) => warned@ != digest,
        }
    }

    /// Whether it has to be said that the settings with this digest are refused.
    pub fn should_warn_rejected(&self, digest: &str) -> (r: bool)
        ensures
            r == self.warns(digest@),
    {
        match &self.warned_rejected_digest {
            None => true,
            Some(warned) => !text::same_text(warned.as_str(), digest),
        }
    }

    /// Notes that the settings with this digest were refused.
    pub fn note_rejected(&mut self, digest: String)
        ensures
            final(self).live_digest == old(self).live_digest,
            final(self).warned_rejected_digest == Some(digest),
    {
        self.warned_rejected_digest = Some(digest);
    }

    /// Notes that the settings with this digest are in force.
    pub fn note_applied(&mut self, digest: String)
        ensures
            final(self).live_digest == digest,
            final(self).warned_rejected_digest is None,
    {
        self.live_digest = digest;
        self.warned_rejected_digest = None;
    }

    /// The digest of settings that have to be read: none where they are those in force.
    pub open spec fn found_in(self, raw: Seq<u8>) -> Option<Seq<char>> {
        if self.live_digest@ == digest::text_digest(raw) {
            None
        } else {
            Some(digest::text_digest(raw))
        }
    }

    /// What a look at the settings finds.
    pub fn look(&self, raw: &str) -> (r: ReloadStep)
        ensures
            self.found_in(raw.spec_bytes()) == match r {
                ReloadStep::Unchanged => None,
                ReloadStep::Read(found) => Some(found@),
            },
    {
        let found = digest::digest_text(raw);
        if self.is_live_digest(found.as_str()) {
            ReloadStep::Unchanged
        } else {
            ReloadStep::Read(found)
        }
    }

    /// Notes that settings could not be used, and says whether that has to be complained about: once
    /// for each text.
    pub fn reject(&mut self, digest: String) -> (complain: bool)
        ensures
            complain == old(self).warns(digest@),
            final(self).live_digest == old(self).live_digest,
            !final(self).warns(digest@),
            complain ==> final(self).warned_rejected_digest == Some(digest),
            !complain ==> final(self).warned_rejected_digest == old(self).warned_rejected_digest,
    {
        let complain = self.should_warn_rejected(digest.as_str());
        if complain {
            self.note_rejected(digest);
        }
        complain
    }
}

/// Settings that the application put in force itself are not read again, as long as their text is
/// the same.
pub proof fn own_settings_are_not_reloaded(state: ConfigReloadState, written: Seq<u8>)
    requires
        state.live_digest@ == digest::text_digest(written),
    ensures
        state.found_in(written) is None,
{
}

/// Settings that are written, read back from that text and put in force are those that were written,
/// and are not read again as long as the text is the same.
pub proof fn written_settings_are_read_once(
    settings: AppConfig,
    written: AppConfig,
    canonical: Seq<Option<String>>,
    again: Seq<Option<String>>,
    raw: Seq<u8>,
    bind_addr_parses: bool,
    probes: Seq<RootProbe>,
    r: Result<(AppConfig, String), ConfigError>,
    state: ConfigReloadState,
)
    requires
        config::normalized_from(written, settings, canonical),
        written.spec_validate(bind_addr_parses, probes) is Ok,
        forall|i: int|
            0 <= i < written.sources@.len() ==> config::canonical_already(
                #[trigger] written.sources@[i],
                config::canonical_at(again, i),
            ),
        config::taken_in(r, written, raw, again, bind_addr_parses, probes),
        r matches Ok((_, fingerprint)) ==> state.live_digest@ == fingerprint@,
    ensures
        r matches Ok((read, fingerprint)) && config::same_settings(read, written) && fingerprint@
            == digest::text_digest(raw),
        state.found_in(raw) is None,
{
    config::written_settings_are_read_back(
        settings,
        written,
        canonical,
        again,
        raw,
        bind_addr_parses,
        probes,
        r,
    );
    own_settings_are_not_reloaded(state, raw);
}

/// Settings that were refused are complained about again only after others were refused or put in
/// force.
pub proof fn refusals_are_said_once(state: ConfigReloadState, refused: String, other: Seq<char>)
    requires
        state.warned_rejected_digest == Some(refused),
    ensures
        !state.warns(refused@),
        other != refused@ ==> state.warns(other),
{
}

/// What becomes of a source when the sources are looked at.
#[derive(Debug, Clone, Copy, PartialEq, Eq, Structural)]
pub enum SourceScan {
    Skip,
    /// A local directory is left to the background work.
    Defer,
    Scan,
}

/// What becomes of a source when the sources are looked at: scanned if that is asked for, if a
/// locked thread needs it, or if it is due and may not rest.
pub open spec fn source_scan_of(
    force: bool,
    lock_hungry: bool,
    scan_due: bool,
    local_directory: bool,
    can_rest: bool,
) -> SourceScan {
    if force {
        SourceScan::Scan
    } else if !lock_hungry && !scan_due {
        SourceScan::Skip
    } else if local_directory {
        SourceScan::Defer
    } else if !lock_hungry && can_rest {
        SourceScan::Skip
    } else {
        SourceScan::Scan
    }
}

/// What becomes of a source when the sources are looked at.
pub fn source_scan(
    force: bool,
    lock_hungry: bool,
    scan_due: bool,
    local_directory: bool,
    can_rest: bool,
) -> (r: SourceScan)
    ensures
        r == source_scan_of(force, lock_hungry, scan_due, local_directory, can_rest),
{
    if force {
        SourceScan::Scan
    } else if !lock_hungry && !scan_due {
        SourceScan::Skip
    } else if local_directory {
        SourceScan::Defer
    } else if !lock_hungry && can_rest {
        SourceScan::Skip
    } else {
        SourceScan::Scan
    }
}

/// Unless it is asked for, a local directory is never scanned at once.
pub proof fn local_directories_are_left_to_background_work(
    lock_hungry: bool,
    scan_due: bool,
    can_rest: bool,
)
    ensures
        source_scan_of(false, lock_hungry, scan_due, true, can_rest) != SourceScan::Scan,
        lock_hungry || scan_due ==> source_scan_of(false, lock_hungry, scan_due, true, can_rest)
            == SourceScan::Defer,
        source_scan_of(true, lock_hungry, scan_due, true, can_rest) == SourceScan::Scan,
{
}

/// What a source offered when it was scanned.
#[derive(Debug)]
pub struct ScannedSource {
    pub source_key: String,
    pub local_directory: bool,
    /// How many streams it offered, unless the scan failed.
    pub streams: Option<usize>,
}

/// What scanned sources are ordered by: local directories first, then those with the fewest streams,
/// those that failed last, then by name.
pub open spec fn scanned_key(source: ScannedSource) -> Seq<i128> {
    seq![
        if source.local_directory {
            0i128
        } else {
            1i128
        },
        match source.streams {
            Some(streams) => streams as i128,
            None => usize::MAX as i128,
        },
    ] + rank::text_key(source.source_key@)
}

/// What all scanned sources are ordered by.
pub open spec fn scanned_keys(sources: Seq<ScannedSource>) -> Seq<Seq<i128>> {
    sources.map_values(|source: ScannedSource| scanned_key(source))
}

/// The order in which what the sources offered is gone through.
pub fn harvest_order(sources: &Vec<ScannedSource>) -> (order: Vec<usize>)
    ensures
        rank::is_ranking(order@, scanned_keys(sources@)),
{
    let mut keys: Vec<Vec<i128>> = Vec::new();
    let mut i: usize = 0;
    while i < sources.len()
        invariant
            i <= sources.len(),
            keys.len() == i,
            forall|j: int| 0 <= j < i ==> (#[trigger] keys@[j])@ == scanned_key(sources@[j]),
        decreases sources.len() - i,
    {
        let group: i128 = if sources[i].local_directory {
            0
        } else {
            1
        };
        let size: i128 = match sources[i].streams {
            Some(streams) => streams as i128,
            None => usize::MAX as i128,
        };
        let mut key = vec![group, size];
        rank::push_text_key(&mut key, sources[i].source_key.as_str());
        assert(key@ =~= scanned_key(sources@[i as int]));
        keys.push(key);
        i += 1;
    }
    assert(rank::key_views(keys@) =~= scanned_keys(sources@));
    rank::ranking(&keys)
}

/// How many streams and images the sources have.
#[derive(Debug, Clone, Copy, PartialEq, Eq, Structural)]
pub struct SourceCounts {
    pub active_streams: usize,
    pub blocked_streams: usize,
    pub cached_items: usize,
}

/// The sums over all sources: active streams, blocked streams, images.
pub open spec fn summed(counts: Seq<SourceCounts>) -> (int, int, int)
    decreases counts.len(),
{
    if counts.len() == 0 {
        (0, 0, 0)
    } else {
        let before = summed(counts.drop_last());
        (
            before.0 + counts.last().active_streams,
            before.1 + counts.last().blocked_streams,
            before.2 + counts.last().cached_items,
        )
    }
}

proof fn lemma_summed_grows(counts: Seq<SourceCounts>, n: int)
    requires
        0 <= n <= counts.len(),
    ensures
        0 <= summed(counts.take(n)).0 <= summed(counts).0,
        0 <= summed(counts.take(n)).1 <= summed(counts).1,
        0 <= summed(counts.take(n)).2 <= summed(counts).2,
    decreases counts.len(),
{
    if n == counts.len() {
        assert(counts.take(n) =~= counts);
        if counts.len() > 0 {
            lemma_summed_grows(counts.drop_last(), counts.len() - 1);
            assert(counts.drop_last().take(counts.len() - 1) =~= counts.drop_last());
        }
    } else {
        lemma_summed_grows(counts.drop_last(), n);
        assert(counts.drop_last().take(n) =~= counts.take(n));
    }
}

/// The sums over all sources.
pub fn sum_counts(counts: &Vec<SourceCounts>) -> (r: SourceCounts)
    requires
        summed(counts@).0 <= usize::MAX,
        summed(counts@).1 <= usize::MAX,
        summed(counts@).2 <= usize::MAX,
    ensures
        r.active_streams == summed(counts@).0,
        r.blocked_streams == summed(counts@).1,
        r.cached_items == summed(counts@).2,
{
    let mut r = SourceCounts { active_streams: 0, blocked_streams: 0, cached_items: 0 };
    let mut i: usize = 0;
    while i < counts.len()
        invariant
            i <= counts.len(),
            summed(counts@).0 <= usize::MAX,
            summed(counts@).1 <= usize::MAX,
            summed(counts@).2 <= usize::MAX,
            r.active_streams == summed(counts@.take(i as int)).0,
            r.blocked_streams == summed(counts@.take(i as int)).1,
            r.cached_items == summed(counts@.take(i as int)).2,
        decreases counts.len() - i,
    {
        proof {
            assert(counts@.take(i + 1).drop_last() =~= counts@.take(i as int));
            assert(counts@.take(i + 1).last() == counts@[i as int]);
            lemma_summed_grows(counts@, i + 1);
        }
        let one = counts[i];
        r = SourceCounts {
            active_streams: r.active_streams + one.active_streams,
            blocked_streams: r.blocked_streams + one.blocked_streams,
            cached_items: r.cached_items + one.cached_items,
        };
        i += 1;
    }
    assert(counts@.take(i as int) =~= counts@);
    r
}

/// The first place of the source with a key, or the length of the list where it is not in it.
pub open spec fn source_place(sources: Seq<SourceConfig>, key: Seq<char>) -> int
    decreases sources.len(),
{
    if sources.len() == 0 || sources[0].upstream.key() == key {
        0
    } else {
        1 + source_place(sources.skip(1), key)
    }
}

/// The source with a key.
pub fn source_config_for_key(sources: &Vec<SourceConfig>, source_key: &str) -> (r: Option<usize>)
    ensures
        match r {
            None => source_place(sources@, source_key@) == sources@.len(),
            Some(at) => at < sources@.len() && at == source_place(sources@, source_key@)
                && sources@[at as int].upstream.key() == source_key@,
        },
{
    let mut i: usize = 0;
    assert(sources@.skip(0) =~= sources@);
    while i < sources.len()
        invariant
            i <= sources.len(),
            source_place(sources@, source_key@) == i + source_place(
                sources@.skip(i as int),
                source_key@,
            ),
        decreases sources.len() - i,
    {
        assert(sources@.skip(i as int)[0] == sources@[i as int]);
        if text::same_text(sources[i].source_key().as_str(), source_key) {
            return Some(i);
        }
        assert(sources@.skip(i as int).skip(1) =~= sources@.skip(i + 1));
        i += 1;
    }
    None
}

/// How soon prepared turns are replaced when the share of outside images changes: at once where the
/// kind of mix changes.
pub fn external_probability_invalidation(before: Scalar, after: Scalar) -> (r: SamplerInvalidation)
    ensures
        r == if pairing::regime_of(before) == pairing::regime_of(after) {
            SamplerInvalidation::Eventual
        } else {
            SamplerInvalidation::Immediate
        },
{
    if pairing::source_mix_regime(before) == pairing::source_mix_regime(after) {
        SamplerInvalidation::Eventual
    } else {
        SamplerInvalidation::Immediate
    }
}

/// How soon prepared turns are replaced when the radius of look-alikes changes by `gap`, without its
/// sign: at once unless the change is nothing.
pub fn dedup_radius_invalidation(gap: Scalar) -> (r: SamplerInvalidation)
    ensures
        r == if (Scalar { bits: pairing::EPSILON_BITS }).reaches(gap) {
            SamplerInvalidation::Eventual
        } else {
            SamplerInvalidation::Immediate
        },
{
    let epsilon = Scalar { bits: pairing::EPSILON_BITS };
    if epsilon.does_reach(gap) {
        SamplerInvalidation::Eventual
    } else {
        SamplerInvalidation::Immediate
    }
}

} // verus!
