//! Which files leave the caches when they grow too large, and which are kept for the arena.
use crate::config;
use crate::config::SourceConfig;
use crate::harvest;
use crate::harvest::StreamCounts;
use crate::model::SessionSubsourceLock;
use crate::paths;
use crate::rank;
use crate::ready_frontier;
use crate::ready_frontier::ReadyTargetProfile;
use crate::text;
use crate::textset;
use crate::textset::TextSet;
use vstd::prelude::*;

verus! {

pub const DEFAULT_RENDITION_CACHE_MAX_BYTES: u64 = 1024 * 1024 * 1024;

pub const DEFAULT_SOURCE_CACHE_MAX_BYTES: u64 = 1024 * 1024 * 1024;

pub const DEFAULT_CACHE_PRUNE_INTERVAL_SECONDS: u64 = 60;

/// A number from the environment: the default where it is not set or not a number.
pub open spec fn setting(value: Option<Seq<char>>, default: u64) -> u64 {
    match value {
        None => default,
        Some(value) => match text::unsigned(config::trimmed(value)) {
            None => default,
            Some(n) => n,
        },
    }
}

/// A number from the environment: the default where it is not set or not a number.
pub fn u64_setting(value: Option<&str>, default: u64) -> (r: u64)
    ensures
        r == setting(
            match value {
                None => None,
                Some(value) => Some(value@),
            },
            default,
        ),
{
    match value {
        None => default,
        Some(value) => match text::parse_unsigned(config::trim(value).as_str()) {
            None => default,
            Some(n) => n,
        },
    }
}

/// How many seconds pass between two prunings: ten at least, and five minutes where the number that
/// was set is beyond what can be waited for.
pub fn cache_prune_interval_seconds(value: Option<&str>) -> (r: i64)
    ensures
        ({
            let asked = setting(
                match value {
                    None => None,
                    Some(value) => Some(value@),
                },
                DEFAULT_CACHE_PRUNE_INTERVAL_SECONDS,
            );
            r == if asked > i64::MAX {
                300
            } else if asked < 10 {
                10
            } else {
                asked as int
            }
        }),
{
    let asked = u64_setting(value, DEFAULT_CACHE_PRUNE_INTERVAL_SECONDS);
    if asked > 0x7fff_ffff_ffff_ffff {
        300
    } else if asked < 10 {
        10
    } else {
        asked as i64
    }
}

/// How far a cache that is too large is emptied: to nine tenths of what it may hold.
pub open spec fn target_of(max_bytes: u64) -> u64 {
    if max_bytes * 9 > u64::MAX {
        (u64::MAX / 10) as u64
    } else {
        (max_bytes * 9 / 10) as u64
    }
}

/// How far a cache that is too large is emptied.
pub fn prune_target_bytes(max_bytes: u64) -> (r: u64)
    ensures
        r == target_of(max_bytes),
{
    let scaled = match max_bytes.checked_mul(9) {
        Some(scaled) => scaled,
        None => u64::MAX,
    };
    scaled / 10
}

/// Emptying a cache always leaves less than it may hold.
pub proof fn the_target_is_below_the_limit(max_bytes: u64)
    ensures
        target_of(max_bytes) <= max_bytes,
        max_bytes > 0 ==> target_of(max_bytes) < max_bytes,
{
}

/// Whether a path is that of a file that is still being written.
pub fn is_active_cache_temp(path: &str) -> (r: bool)
    ensures
        r == is_temporary(path@),
{
    match paths::file_name_of(path) {
        None => false,
        Some(name) => {
            if text::starts_with(name.as_str(), ".tmp") {
                return true;
            }
            match paths::extension_of(path) {
                None => false,
                Some(ext) => text::same_text(config::to_lower(ext.as_str()).as_str(), "tmp"),
            }
        },
    }
}

/// The path is that of a file that is still being written: its name starts with `.tmp` or ends in
/// `.tmp`.
pub open spec fn is_temporary(path: Seq<char>) -> bool {
    match paths::file_name(path) {
        None => false,
        Some(name) => ".tmp"@.is_prefix_of(name) || match paths::extension(path) {
            None => false,
            Some(ext) => config::lowered(ext) == "tmp"@,
        },
    }
}

/// A file of a cache.
#[derive(Debug)]
pub struct CacheEntry {
    pub path: String,
    pub bytes: u64,
    /// When the file was used last, in nanoseconds since the epoch.
    pub last_used: i128,
    /// The file is kept for the arena.
    pub protected: bool,
}

/// What paths are ordered by: their components one after the other.
pub open spec fn path_key(path: Seq<char>) -> Seq<i128> {
    path.map_values(
        |c: char|
            if c == '/' {
                -1i128
            } else {
                c as u32 as i128
            },
    )
}

/// What files leave the cache by: unprotected ones first, then those used the longest ago, then by
/// their paths.
pub open spec fn prune_key(entry: CacheEntry) -> Seq<i128> {
    seq![
        if entry.protected {
            1i128
        } else {
            0i128
        },
        entry.last_used,
    ] + path_key(entry.path@)
}

/// What all files leave the cache by.
pub open spec fn prune_keys(entries: Seq<CacheEntry>) -> Seq<Seq<i128>> {
    entries.map_values(|entry: CacheEntry| prune_key(entry))
}

/// How many bytes all files have.
pub open spec fn total_bytes(entries: Seq<CacheEntry>) -> int
    decreases entries.len(),
{
    if entries.len() == 0 {
        0
    } else {
        total_bytes(entries.drop_last()) + entries.last().bytes
    }
}

/// How many bytes the files at the places of `chosen` have.
pub open spec fn bytes_at(entries: Seq<CacheEntry>, chosen: Seq<usize>) -> int
    decreases chosen.len(),
{
    if chosen.len() == 0 {
        0
    } else {
        bytes_at(entries, chosen.drop_last()) + entries[chosen.last() as int].bytes
    }
}

/// What a pruning did.
#[derive(Debug)]
pub struct CachePruneSummary {
    pub max_bytes: u64,
    pub target_bytes: u64,
    pub bytes_before: u64,
    pub bytes_after: u64,
    pub files_seen: usize,
    pub files_removed: usize,
    pub bytes_removed: u64,
    pub removed_paths: Vec<String>,
}

/// A pruning under way: the files, the order in which they leave, how many were tried, and which of
/// them are gone.
#[derive(Debug)]
pub struct PruneRun {
    pub entries: Vec<CacheEntry>,
    pub order: Vec<usize>,
    pub tried: usize,
    pub removed: Vec<usize>,
    pub summary: CachePruneSummary,
}

/// At most the largest number of bytes that can be counted.
pub open spec fn clipped(bytes: int) -> u64 {
    if bytes > u64::MAX {
        u64::MAX
    } else if bytes < 0 {
        0
    } else {
        bytes as u64
    }
}

/// The paths of the files at the places of `chosen`.
pub open spec fn paths_at(entries: Seq<CacheEntry>, chosen: Seq<usize>) -> Seq<Seq<char>> {
    chosen.map_values(|k: usize| entries[k as int].path@)
}

impl PruneRun {
    /// The run is consistent: the summary says what became of the files.
    pub open spec fn wf(self) -> bool {
        &&& rank::is_ranking(self.order@, prune_keys(self.entries@))
        &&& self.tried <= self.order@.len()
        &&& self.removed@.len() <= self.tried
        &&& forall|i: int| 0 <= i < self.removed@.len() ==> self.order@.take(self.tried as int).contains(#[trigger] self.removed@[i])
        &&& self.removed@.len() == self.tried ==> self.removed@ == self.order@.take(self.tried as int)
        &&& self.summary.target_bytes == target_of(self.summary.max_bytes)
        &&& self.summary.files_seen == self.entries@.len()
        &&& self.summary.files_removed == self.removed@.len()
        &&& self.summary.bytes_before == clipped(total_bytes(self.entries@))
        &&& self.summary.bytes_removed == clipped(bytes_at(self.entries@, self.removed@))
        &&& self.summary.bytes_after == clipped(
            self.summary.bytes_before - bytes_at(self.entries@, self.removed@),
        )
        &&& textset::texts(self.summary.removed_paths@) == paths_at(self.entries@, self.removed@)
    }

    /// The file that has to go next: none where the cache was not too large, or is small enough by
    /// now, or has no file left that was not tried.
    pub open spec fn victim(self) -> Option<usize> {
        if self.summary.bytes_before > self.summary.max_bytes && self.summary.bytes_after
            > self.summary.target_bytes && self.tried < self.order@.len() {
            Some(self.order@[self.tried as int])
        } else {
            None
        }
    }

    /// The file that has to go next.
    pub fn next_victim(&self) -> (r: Option<usize>)
        requires
            self.wf(),
        ensures
            r == self.victim(),
            r matches Some(at) ==> at < self.entries@.len(),
    {
        if self.summary.bytes_before > self.summary.max_bytes && self.summary.bytes_after
            > self.summary.target_bytes && self.tried < self.order.len() {
            assert(self.order@[self.tried as int] < prune_keys(self.entries@).len());
            Some(self.order[self.tried])
        } else {
            None
        }
    }

    /// Notes whether the file that had to go could be removed.
    pub fn note(&mut self, removed: bool)
        requires
            old(self).wf(),
            old(self).victim() is Some,
        ensures
            final(self).wf(),
            final(self).entries@ == old(self).entries@,
            final(self).order@ == old(self).order@,
            final(self).tried == old(self).tried + 1,
            final(self).removed@ == if removed {
                old(self).removed@.push(old(self).victim().unwrap())
            } else {
                old(self).removed@
            },
            final(self).summary.max_bytes == old(self).summary.max_bytes,
    {
        let at = self.order[self.tried];
        proof {
            assert(at < prune_keys(self.entries@).len());
            let before = self.order@.take(self.tried as int);
            let after = self.order@.take(self.tried + 1);
            assert(after =~= before.push(at));
            assert forall|x: usize| before.contains(x) implies #[trigger] after.contains(x) by {
                let j = choose|j: int| 0 <= j < before.len() && before[j] == x;
                assert(after[j] == x);
            }
            assert(after[self.tried as int] == at);
        }
        self.tried = self.tried + 1;
        if removed {
            let bytes = self.entries[at].bytes;
            let ghost gone = self.removed@;
            let ghost gone_paths = self.summary.removed_paths@;
            proof {
                lemma_bytes_at_nonnegative(self.entries@, gone);
                assert(gone.push(at).drop_last() =~= gone);
                assert(gone.push(at).last() == at);
            }
            self.removed.push(at);
            self.summary.files_removed = self.summary.files_removed + 1;
            self.summary.bytes_removed = self.summary.bytes_removed.saturating_add(bytes);
            self.summary.bytes_after = self.summary.bytes_after.saturating_sub(bytes);
            self.summary.removed_paths.push(self.entries[at].path.clone());
            proof {
                assert(textset::texts(self.summary.removed_paths@) =~= textset::texts(gone_paths).push(
                    self.entries@[at as int].path@,
                ));
                assert(paths_at(self.entries@, self.removed@) =~= paths_at(self.entries@, gone).push(
                    self.entries@[at as int].path@,
                ));
            }
        }
    }
}

proof fn lemma_bytes_at_nonnegative(entries: Seq<CacheEntry>, chosen: Seq<usize>)
    ensures
        bytes_at(entries, chosen) >= 0,
    decreases chosen.len(),
{
    if chosen.len() > 0 {
        lemma_bytes_at_nonnegative(entries, chosen.drop_last());
    }
}

proof fn lemma_total_nonnegative(entries: Seq<CacheEntry>)
    ensures
        total_bytes(entries) >= 0,
    decreases entries.len(),
{
    if entries.len() > 0 {
        lemma_total_nonnegative(entries.drop_last());
    }
}

/// Begins a pruning of the files found in a cache. Files that are still being written are left
/// alone and not counted.
pub fn begin_prune(found: Vec<CacheEntry>, max_bytes: u64) -> (r: PruneRun)
    ensures
        r.wf(),
        r.entries@ == found@.filter(|entry: CacheEntry| !is_temporary(entry.path@)),
        r.tried == 0,
        r.summary.max_bytes == max_bytes,
{
    let ghost all = found@;
    let ghost stable = |entry: CacheEntry| !is_temporary(entry.path@);
    let mut waiting = found;
    let mut entries: Vec<CacheEntry> = Vec::new();
    proof {
        assert(all.skip(0) =~= all);
        assert(all.take(0).filter(stable) =~= Seq::<CacheEntry>::empty()) by {
            reveal(Seq::filter);
        }
    }
    let ghost mut i: int = 0;
    while waiting.len() > 0
        invariant
            0 <= i <= all.len(),
            waiting@ == all.skip(i),
            stable == (|entry: CacheEntry| !is_temporary(entry.path@)),
            entries@ == all.take(i).filter(stable),
        decreases waiting.len(),
    {
        let entry = waiting.remove(0);
        proof {
            reveal(Seq::filter);
            assert(all.skip(i)[0] == all[i]);
            assert(all.take(i + 1).drop_last() =~= all.take(i));
            assert(all.take(i + 1).last() == entry);
            assert(all.skip(i).remove(0) =~= all.skip(i + 1));
        }
        if !is_active_cache_temp(entry.path.as_str()) {
            entries.push(entry);
        }
        proof {
            i = i + 1;
        }
    }
    assert(all.take(i) =~= all);
    let mut keys: Vec<Vec<i128>> = Vec::new();
    let mut bytes_before: u64 = 0;
    let mut k: usize = 0;
    while k < entries.len()
        invariant
            k <= entries.len(),
            keys.len() == k,
            forall|j: int| 0 <= j < k ==> (#[trigger] keys@[j])@ == prune_key(entries@[j]),
            bytes_before == clipped(total_bytes(entries@.take(k as int))),
        decreases entries.len() - k,
    {
        proof {
            assert(entries@.take(k + 1).drop_last() =~= entries@.take(k as int));
            lemma_total_nonnegative(entries@.take(k as int));
        }
        let flag: i128 = if entries[k].protected {
            1
        } else {
            0
        };
        let mut key = vec![flag, entries[k].last_used];
        push_path_key(&mut key, entries[k].path.as_str());
        assert(key@ =~= prune_key(entries@[k as int]));
        keys.push(key);
        bytes_before = bytes_before.saturating_add(entries[k].bytes);
        k += 1;
    }
    assert(entries@.take(k as int) =~= entries@);
    assert(rank::key_views(keys@) =~= prune_keys(entries@));
    let order = rank::ranking(&keys);
    let files_seen = entries.len();
    let r = PruneRun {
        entries,
        order,
        tried: 0,
        removed: Vec::new(),
        summary: CachePruneSummary {
            max_bytes,
            target_bytes: prune_target_bytes(max_bytes),
            bytes_before,
            bytes_after: bytes_before,
            files_seen,
            files_removed: 0,
            bytes_removed: 0,
            removed_paths: Vec::new(),
        },
    };
    proof {
        assert(r.removed@ =~= r.order@.take(0));
        assert(textset::texts(r.summary.removed_paths@) =~= paths_at(r.entries@, r.removed@));
    }
    r
}

fn push_path_key(key: &mut Vec<i128>, path: &str)
    ensures
        final(key)@ == old(key)@ + path_key(path@),
{
    let chars = text::chars_of(path);
    let mut i: usize = 0;
    while i < chars.len()
        invariant
            i <= chars.len(),
            chars@ == path@,
            key@ == old(key)@ + path_key(path@.take(i as int)),
        decreases chars.len() - i,
    {
        let c = chars[i];
        let place: i128 = if c == '/' {
            -1
        } else {
            c as u32 as i128
        };
        proof {
            assert(path_key(path@.take(i + 1)) =~= path_key(path@.take(i as int)).push(place));
        }
        key.push(place);
        i += 1;
    }
    assert(path@.take(i as int) =~= path@);
}

proof fn lemma_bytes_at_remove(entries: Seq<CacheEntry>, chosen: Seq<usize>, p: int)
    requires
        0 <= p < chosen.len(),
    ensures
        bytes_at(entries, chosen) == bytes_at(entries, chosen.remove(p)) + entries[chosen[p] as int].bytes,
    decreases chosen.len(),
{
    let rest = chosen.remove(p);
    if p == chosen.len() - 1 {
        assert(rest =~= chosen.drop_last());
    } else {
        lemma_bytes_at_remove(entries, chosen.drop_last(), p);
        assert(rest.drop_last() =~= chosen.drop_last().remove(p));
        assert(rest.last() == chosen.last());
    }
}

proof fn lemma_bytes_at_prefix(entries: Seq<CacheEntry>, n: int, chosen: Seq<usize>)
    requires
        0 <= n <= entries.len(),
        forall|i: int| 0 <= i < chosen.len() ==> (#[trigger] chosen[i]) < n,
    ensures
        bytes_at(entries, chosen) == bytes_at(entries.take(n), chosen),
    decreases chosen.len(),
{
    if chosen.len() > 0 {
        lemma_bytes_at_prefix(entries, n, chosen.drop_last());
        assert(chosen.last() < n);
    }
}

/// A list of all places, each once, has the bytes of all files.
proof fn lemma_bytes_of_all(entries: Seq<CacheEntry>, chosen: Seq<usize>)
    requires
        chosen.no_duplicates(),
        entries.len() <= usize::MAX,
        forall|i: int| 0 <= i < chosen.len() ==> (#[trigger] chosen[i]) < entries.len(),
        forall|k: usize| k < entries.len() ==> #[trigger] chosen.contains(k),
    ensures
        bytes_at(entries, chosen) == total_bytes(entries),
    decreases entries.len(),
{
    if entries.len() == 0 {
        if chosen.len() > 0 {
            assert(chosen[0] < entries.len());
        }
    } else {
        let last = (entries.len() - 1) as usize;
        assert(chosen.contains(last));
        let p = choose|p: int| 0 <= p < chosen.len() && chosen[p] == last;
        let rest = chosen.remove(p);
        let fewer = entries.drop_last();
        assert forall|i: int| 0 <= i < rest.len() implies (#[trigger] rest[i]) < fewer.len() by {
            let j = if i < p {
                i
            } else {
                i + 1
            };
            assert(rest[i] == chosen[j]);
            assert(chosen[j] != chosen[p]);
        }
        assert forall|k: usize| k < fewer.len() implies #[trigger] rest.contains(k) by {
            assert(chosen.contains(k));
            let j = choose|j: int| 0 <= j < chosen.len() && chosen[j] == k;
            let i = if j < p {
                j
            } else {
                j - 1
            };
            assert(rest[i] == k);
        }
        assert(rest.no_duplicates());
        lemma_bytes_of_all(fewer, rest);
        lemma_bytes_at_remove(entries, chosen, p);
        assert(entries.take(fewer.len() as int) =~= fewer);
        lemma_bytes_at_prefix(entries, fewer.len() as int, rest);
    }
}

/// A pruning in which every file that had to go could be removed ends with a cache that holds no
/// more than its target.
pub proof fn a_pruned_cache_is_small_enough(run: PruneRun)
    requires
        run.wf(),
        run.victim() is None,
        run.summary.files_removed == run.tried,
        run.summary.bytes_before > run.summary.max_bytes,
    ensures
        run.summary.bytes_after <= run.summary.target_bytes,
{
    if run.summary.bytes_after > run.summary.target_bytes {
        assert(run.tried == run.order@.len());
        assert(run.order@.take(run.tried as int) =~= run.order@);
        let keys = prune_keys(run.entries@);
        assert(run.order@.no_duplicates()) by {
            assert forall|i: int, j: int| 0 <= i < j < run.order@.len() implies run.order@[i] != run.order@[j] by {
                rank::lemma_ranking_distinct(run.order@, keys, i, j);
            }
        }
        assert forall|i: int| 0 <= i < run.order@.len() implies (#[trigger] run.order@[i]) < run.entries@.len() by {
            assert(run.order@[i] < keys.len());
        }
        assert forall|k: usize| k < run.entries@.len() implies #[trigger] run.order@.contains(k) by {
            assert(k < keys.len());
        }
        lemma_bytes_of_all(run.entries@, run.order@);
        lemma_total_nonnegative(run.entries@);
        assert(false);
    }
}

/// A cache that is not too large loses nothing.
pub proof fn small_caches_lose_nothing(run: PruneRun)
    requires
        run.wf(),
        run.tried == 0,
        run.summary.bytes_before <= run.summary.max_bytes,
    ensures
        run.victim() is None,
        run.removed@.len() == 0,
{
}

/// While a file that is kept for the arena has to go, no other file is left: all of them were tried
/// before.
pub proof fn protected_files_go_last(run: PruneRun, other: int)
    requires
        run.wf(),
        run.victim() matches Some(at) && run.entries@[at as int].protected,
        0 <= other < run.entries@.len(),
        !run.entries@[other].protected,
    ensures
        run.order@.take(run.tried as int).contains(other as usize),
{
    let keys = prune_keys(run.entries@);
    let at = run.victim().unwrap();
    assert((other as usize) < keys.len());
    assert(run.order@.contains(other as usize));
    let p = choose|p: int| 0 <= p < run.order@.len() && run.order@[p] == other as usize;
    assert(keys[other] == prune_key(run.entries@[other]));
    assert(at < keys.len());
    assert(keys[at as int] == prune_key(run.entries@[at as int]));
    assert(keys[other][0] == 0);
    assert(keys[at as int][0] == 1);
    if p > run.tried {
        assert(rank::precedes(keys, run.order@[run.tried as int] as int, run.order@[p] as int));
        assert(false);
    }
    assert(p != run.tried);
    assert(run.order@.take(run.tried as int)[p] == other as usize);
}

/// A file of an outside image that is ready to be shown.
#[derive(Debug)]
pub struct ExternalReadyCachePath {
    pub stream_id: i64,
    pub path: String,
}

/// The paths of one stream, in order.
pub open spec fn stream_paths(ready: Seq<ExternalReadyCachePath>, stream_id: i64) -> Seq<Seq<char>>
    decreases ready.len(),
{
    if ready.len() == 0 {
        Seq::empty()
    } else if ready.last().stream_id == stream_id {
        stream_paths(ready.drop_last(), stream_id).push(ready.last().path@)
    } else {
        stream_paths(ready.drop_last(), stream_id)
    }
}

proof fn lemma_stream_paths_grow(ready: Seq<ExternalReadyCachePath>, stream_id: i64, n: int)
    requires
        0 <= n <= ready.len(),
    ensures
        stream_paths(ready.take(n), stream_id).is_prefix_of(stream_paths(ready, stream_id)),
    decreases ready.len(),
{
    if n == ready.len() {
        assert(ready.take(n) =~= ready);
        assert(stream_paths(ready, stream_id) =~= stream_paths(ready, stream_id).subrange(
            0,
            stream_paths(ready, stream_id).len() as int,
        ));
    } else {
        lemma_stream_paths_grow(ready.drop_last(), stream_id, n);
        assert(ready.drop_last().take(n) =~= ready.take(n));
        let short = stream_paths(ready.take(n), stream_id);
        let long = stream_paths(ready.drop_last(), stream_id);
        assert(short =~= stream_paths(ready, stream_id).subrange(0, short.len() as int));
    }
}

/// The first `limit` texts.
pub open spec fn first_texts(all: Seq<Seq<char>>, limit: int) -> Seq<Seq<char>> {
    if all.len() > limit {
        all.take(limit)
    } else {
        all
    }
}

/// The files that are kept while the session is locked to a stream: the first `limit` of the stream.
pub fn lock_retention_paths(
    ready_paths: &Vec<ExternalReadyCachePath>,
    locked_stream_id: i64,
    limit: usize,
) -> (r: TextSet)
    ensures
        r@ == first_texts(stream_paths(ready_paths@, locked_stream_id), limit as int).to_set(),
{
    let ghost all = stream_paths(ready_paths@, locked_stream_id);
    let mut retained = TextSet::new();
    let mut taken: usize = 0;
    let mut i: usize = 0;
    assert(stream_paths(ready_paths@.take(0), locked_stream_id).to_set() =~= Set::<Seq<char>>::empty());
    while i < ready_paths.len() && taken < limit
        invariant
            i <= ready_paths.len(),
            taken <= limit,
            taken <= i,
            taken == stream_paths(ready_paths@.take(i as int), locked_stream_id).len(),
            retained@ == stream_paths(ready_paths@.take(i as int), locked_stream_id).to_set(),
        decreases ready_paths.len() - i,
    {
        proof {
            assert(ready_paths@.take(i + 1).drop_last() =~= ready_paths@.take(i as int));
            assert(ready_paths@.take(i + 1).last() == ready_paths@[i as int]);
        }
        if ready_paths[i].stream_id == locked_stream_id {
            let _fresh = retained.insert(ready_paths[i].path.clone());
            proof {
                textset::lemma_push_to_set(
                    stream_paths(ready_paths@.take(i as int), locked_stream_id),
                    ready_paths@[i as int].path@,
                );
            }
            taken += 1;
        }
        i += 1;
    }
    proof {
        lemma_stream_paths_grow(ready_paths@, locked_stream_id, i as int);
        let short = stream_paths(ready_paths@.take(i as int), locked_stream_id);
        assert(short == all.subrange(0, short.len() as int));
        if i == ready_paths@.len() {
            assert(ready_paths@.take(i as int) =~= ready_paths@);
            assert(first_texts(all, limit as int) =~= short);
        } else {
            assert(first_texts(all, limit as int) =~= short);
        }
    }
    retained
}

/// How many files of the same stream come before the file at `i`.
pub open spec fn occurrence(ready: Seq<ExternalReadyCachePath>, i: int) -> int {
    stream_paths(ready.take(i), ready[i].stream_id).len() as int
}

/// The first place of a file of the stream.
pub open spec fn first_of_stream(ready: Seq<ExternalReadyCachePath>, stream_id: i64) -> int
    decreases ready.len(),
{
    if ready.len() == 0 || ready[0].stream_id == stream_id {
        0
    } else {
        1 + first_of_stream(ready.skip(1), stream_id)
    }
}

/// What files are kept by: the first file of every stream before the second of any, and within a
/// round the streams in the order in which they came.
pub open spec fn round_key(ready: Seq<ExternalReadyCachePath>, i: int) -> Seq<i128> {
    seq![occurrence(ready, i) as i128, first_of_stream(ready, ready[i].stream_id) as i128]
}

/// What all files are kept by.
pub open spec fn round_keys(ready: Seq<ExternalReadyCachePath>) -> Seq<Seq<i128>> {
    Seq::new(ready.len(), |i: int| round_key(ready, i))
}

/// The first different ones of the paths at the places of `order`, at most `limit`.
pub open spec fn kept_in_order(ready: Seq<ExternalReadyCachePath>, order: Seq<usize>, limit: int) -> Set<
    Seq<char>,
>
    decreases order.len(),
{
    if order.len() == 0 {
        Set::empty()
    } else {
        let before = kept_in_order(ready, order.drop_last(), limit);
        if before.len() >= limit {
            before
        } else {
            before.insert(ready[order.last() as int].path@)
        }
    }
}

fn count_before(ready: &Vec<ExternalReadyCachePath>, i: usize) -> (r: (usize, usize))
    requires
        i < ready@.len(),
    ensures
        r.0 == occurrence(ready@, i as int),
        r.1 == first_of_stream(ready@, ready@[i as int].stream_id),
{
    let stream_id = ready[i].stream_id;
    let mut count: usize = 0;
    let mut first: usize = i;
    let mut k: usize = 0;
    assert(ready@.skip(0) =~= ready@);
    while k < i
        invariant
            k <= i,
            i < ready@.len(),
            stream_id == ready@[i as int].stream_id,
            count <= k,
            count == stream_paths(ready@.take(k as int), stream_id).len(),
            count == 0 ==> first == i && first_of_stream(ready@, stream_id) == k + first_of_stream(
                ready@.skip(k as int),
                stream_id,
            ),
            count > 0 ==> first == first_of_stream(ready@, stream_id),
        decreases i - k,
    {
        proof {
            assert(ready@.take(k + 1).drop_last() =~= ready@.take(k as int));
            assert(ready@.take(k + 1).last() == ready@[k as int]);
            assert(ready@.skip(k as int)[0] == ready@[k as int]);
            assert(ready@.skip(k as int).skip(1) =~= ready@.skip(k + 1));
        }
        if ready[k].stream_id == stream_id {
            if count == 0 {
                first = k;
            }
            count += 1;
        }
        k += 1;
    }
    proof {
        assert(ready@.skip(i as int)[0] == ready@[i as int]);
    }
    (count, first)
}

/// The files that are kept of a source: `limit` at most, taken from its streams in turn.
pub fn round_robin_retention_paths(ready_paths: &Vec<ExternalReadyCachePath>, limit: usize) -> (r:
    TextSet)
    ensures
        exists|order: Seq<usize>| #[trigger]
            rank::is_ranking(order, round_keys(ready_paths@)) && r@ == kept_in_order(
                ready_paths@,
                order,
                limit as int,
            ),
{
    let mut keys: Vec<Vec<i128>> = Vec::new();
    let mut i: usize = 0;
    while i < ready_paths.len()
        invariant
            i <= ready_paths.len(),
            keys.len() == i,
            forall|j: int| 0 <= j < i ==> (#[trigger] keys@[j])@ == round_key(ready_paths@, j),
        decreases ready_paths.len() - i,
    {
        let (count, first) = count_before(ready_paths, i);
        let key = vec![count as i128, first as i128];
        assert(key@ =~= round_key(ready_paths@, i as int));
        keys.push(key);
        i += 1;
    }
    assert(rank::key_views(keys@) =~= round_keys(ready_paths@));
    let order = rank::ranking(&keys);
    let mut retained = TextSet::new();
    let mut at: usize = 0;
    while at < order.len()
        invariant
            at <= order.len(),
            rank::is_ranking(order@, round_keys(ready_paths@)),
            retained@ == kept_in_order(ready_paths@, order@.take(at as int), limit as int),
        decreases order.len() - at,
    {
        proof {
            assert(order@[at as int] < round_keys(ready_paths@).len());
            assert(order@.take(at + 1).drop_last() =~= order@.take(at as int));
            assert(order@.take(at + 1).last() == order@[at as int]);
        }
        if retained.len() < limit {
            let _fresh = retained.insert(ready_paths[order[at]].path.clone());
        }
        at += 1;
    }
    assert(order@.take(at as int) =~= order@);
    retained
}

proof fn lemma_kept_is_finite(ready: Seq<ExternalReadyCachePath>, order: Seq<usize>, limit: int)
    requires
        limit >= 0,
    ensures
        kept_in_order(ready, order, limit).finite(),
        kept_in_order(ready, order, limit).len() <= limit,
    decreases order.len(),
{
    if order.len() > 0 {
        lemma_kept_is_finite(ready, order.drop_last(), limit);
    }
}

proof fn lemma_kept_grows(ready: Seq<ExternalReadyCachePath>, order: Seq<usize>, limit: int, n: int)
    requires
        limit >= 0,
        0 <= n <= order.len(),
    ensures
        kept_in_order(ready, order.take(n), limit).subset_of(kept_in_order(ready, order, limit)),
    decreases order.len(),
{
    if n == order.len() {
        assert(order.take(n) =~= order);
    } else {
        lemma_kept_grows(ready, order.drop_last(), limit, n);
        assert(order.drop_last().take(n) =~= order.take(n));
    }
}

/// No more files are kept than asked for.
pub proof fn no_more_than_the_limit_is_kept(
    ready: Seq<ExternalReadyCachePath>,
    order: Seq<usize>,
    limit: int,
)
    requires
        limit >= 0,
    ensures
        kept_in_order(ready, order, limit).finite(),
        kept_in_order(ready, order, limit).len() <= limit,
{
    lemma_kept_is_finite(ready, order, limit);
}

/// Streams take turns: where fewer files were kept than asked for when the turn came to a file, the
/// file is kept, and the turn comes to every stream's earlier files before it comes to any stream's
/// later ones.
pub proof fn streams_take_turns(
    ready: Seq<ExternalReadyCachePath>,
    order: Seq<usize>,
    limit: int,
    a: int,
    b: int,
)
    requires
        rank::is_ranking(order, round_keys(ready)),
        limit >= 0,
        0 <= a < order.len(),
        0 <= b < order.len(),
        ready.len() <= usize::MAX,
    ensures
        kept_in_order(ready, order.take(a), limit).len() < limit ==> kept_in_order(
            ready,
            order,
            limit,
        ).contains(ready[order[a] as int].path@),
        occurrence(ready, order[a] as int) < occurrence(ready, order[b] as int) ==> a < b,
{
    let keys = round_keys(ready);
    assert(order[a] < keys.len() && order[b] < keys.len());
    if kept_in_order(ready, order.take(a), limit).len() < limit {
        assert(order.take(a + 1).drop_last() =~= order.take(a));
        assert(order.take(a + 1).last() == order[a]);
        lemma_kept_grows(ready, order, limit, a + 1);
    }
    if occurrence(ready, order[a] as int) < occurrence(ready, order[b] as int) {
        lemma_occurrence_range(ready, order[a] as int);
        lemma_occurrence_range(ready, order[b] as int);
        if b < a {
            assert(rank::precedes(keys, order[b] as int, order[a] as int));
            assert(keys[order[b] as int][0] == occurrence(ready, order[b] as int));
            assert(keys[order[a] as int][0] == occurrence(ready, order[a] as int));
            assert(false);
        }
    }
}

proof fn lemma_stream_paths_len(ready: Seq<ExternalReadyCachePath>, stream_id: i64)
    ensures
        stream_paths(ready, stream_id).len() <= ready.len(),
    decreases ready.len(),
{
    if ready.len() > 0 {
        lemma_stream_paths_len(ready.drop_last(), stream_id);
    }
}

proof fn lemma_occurrence_range(ready: Seq<ExternalReadyCachePath>, i: int)
    requires
        0 <= i < ready.len(),
        ready.len() <= usize::MAX,
    ensures
        0 <= occurrence(ready, i) <= usize::MAX,
{
    lemma_stream_paths_len(ready.take(i), ready[i].stream_id);
}

/// How many files of a remote source are kept: a source in use keeps up to a dozen, one that is not
/// keeps as many as are wanted of one stream.
pub fn remote_source_retention_limit(
    profile: ReadyTargetProfile,
    active_streams: usize,
    recently_selected: bool,
) -> (r: usize)
    ensures
        r == if recently_selected {
            let wanted = ready_frontier::wanted(profile, active_streams as int);
            let capped = if wanted < ready_frontier::REMOTE_SOURCE_RECENT_READY_CAP {
                wanted
            } else {
                ready_frontier::REMOTE_SOURCE_RECENT_READY_CAP as int
            };
            if capped < profile.per_stream {
                profile.per_stream as int
            } else {
                capped
            }
        } else {
            profile.per_stream as int
        },
{
    if !recently_selected {
        return profile.idle_floor();
    }
    let wanted = profile.target_total(active_streams);
    let capped = if wanted < ready_frontier::REMOTE_SOURCE_RECENT_READY_CAP {
        wanted
    } else {
        ready_frontier::REMOTE_SOURCE_RECENT_READY_CAP
    };
    if capped < profile.idle_floor() {
        profile.idle_floor()
    } else {
        capped
    }
}

/// Which files of a source are kept.
#[derive(Debug, Clone, Copy, PartialEq, Eq, Structural)]
pub enum Retention {
    Nothing,
    /// The first files of the locked stream.
    Locked { stream_id: i64, limit: usize },
    /// Files of all streams in turn.
    InTurn { limit: usize },
}

/// Which files of a source are kept. The files of a local directory are not in the cache; a source
/// that the session is locked to keeps those of the locked stream.
pub fn retention_of(
    source: &SourceConfig,
    ready_paths: usize,
    lock: Option<&SessionSubsourceLock>,
    lock_counts: Option<StreamCounts>,
    ready_target: usize,
    turn_limit: usize,
) -> (r: Retention)
    ensures
        r == if source.upstream is LocalDirectory || ready_paths == 0 {
            Retention::Nothing
        } else if lock matches Some(lock) && lock.source_key@ == source.upstream.key() {
            Retention::Locked {
                stream_id: lock.unwrap().stream_id,
                limit: match lock_counts {
                    None => ready_target,
                    Some(counts) => if counts.live_items < ready_target {
                        counts.live_items
                    } else {
                        ready_target
                    },
                },
            }
        } else {
            Retention::InTurn { limit: turn_limit }
        },
{
    if source.local_directory().is_some() || ready_paths == 0 {
        return Retention::Nothing;
    }
    match lock {
        None => Retention::InTurn { limit: turn_limit },
        Some(lock) => {
            if text::same_text(lock.source_key.as_str(), source.source_key().as_str()) {
                let limit = match lock_counts {
                    None => ready_target,
                    Some(counts) => harvest::locked_stream_ready_target(
                        counts.live_items,
                        ready_target,
                    ),
                };
                Retention::Locked { stream_id: lock.stream_id, limit }
            } else {
                Retention::InTurn { limit: turn_limit }
            }
        },
    }
}

} // verus!
