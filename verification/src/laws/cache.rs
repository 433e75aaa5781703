//! Which files leave the caches.
use crate::cache;
use crate::cache::{CacheEntry, ExternalReadyCachePath, PruneRun};
use crate::config;
use crate::laws::order;
use crate::paths;
use crate::rank;
use crate::text;
use vstd::prelude::*;

verus! {

/// A cache is emptied to nine tenths of what it may hold, rounded down. Where nine times that cannot be
/// counted, a tenth of the largest count stands for it.
pub proof fn caches_are_emptied_to_nine_tenths(max_bytes: u64)
    ensures
        max_bytes * 9 <= u64::MAX ==> cache::target_of(max_bytes) * 10 <= max_bytes * 9 < cache::target_of(
            max_bytes,
        ) * 10 + 10,
        max_bytes * 9 > u64::MAX ==> cache::target_of(max_bytes) == 1_844_674_407_370_955_161,
{
}

/// A path stands before another by the first character in which they differ, where a separator stands
/// before all others.
pub proof fn paths_stand_by_their_components(a: Seq<char>, b: Seq<char>, k: int)
    requires
        0 <= k < a.len(),
        k < b.len(),
        forall|i: int| 0 <= i < k ==> #[trigger] a[i] == b[i],
        a[k] != b[k],
    ensures
        rank::lex_lt(cache::path_key(a), cache::path_key(b)) <==> b[k] != '/' && (a[k] == '/' || a[k]
            < b[k]),
{
    let (x, y) = (cache::path_key(a), cache::path_key(b));
    assert forall|i: int| 0 <= i < k implies #[trigger] x[i] == y[i] by {
        assert(a[i] == b[i]);
    }
    lemma_place_of_characters(a[k], b[k]);
    order::keys_are_compared_from_the_front(x, y, k);
}

proof fn lemma_place_of_characters(c: char, d: char)
    ensures
        (c as u32 as i128) < (d as u32 as i128) <==> c < d,
        (c as u32 as i128) == (d as u32 as i128) <==> c == d,
        (c as u32 as i128) >= 0,
{
}

/// A file may leave a cache before another: an unprotected one before a protected one, then the one
/// used longer ago, then by the path.
pub open spec fn may_leave_before(a: CacheEntry, b: CacheEntry) -> bool {
    &&& a.protected ==> b.protected
    &&& a.protected == b.protected ==> a.last_used <= b.last_used
    &&& a.protected == b.protected && a.last_used == b.last_used ==> !rank::lex_lt(
        cache::path_key(b.path@),
        cache::path_key(a.path@),
    )
}

/// Files leave a cache in that order, each once.
pub proof fn files_leave_from_the_longest_unused_on(
    entries: Seq<CacheEntry>,
    leaving: Seq<usize>,
    i: int,
    j: int,
)
    requires
        rank::is_ranking(leaving, cache::prune_keys(entries)),
        0 <= i < j < leaving.len(),
    ensures
        may_leave_before(entries[leaving[i] as int], entries[leaving[j] as int]),
        leaving[i] != leaving[j],
{
    let keys = cache::prune_keys(entries);
    rank::lemma_ranking_distinct(leaving, keys, i, j);
    assert(rank::precedes(keys, leaving[i] as int, leaving[j] as int));
    let (a, b) = (entries[leaving[i] as int], entries[leaving[j] as int]);
    let (x, y) = (cache::prune_key(a), cache::prune_key(b));
    assert(keys[leaving[i] as int] == x && keys[leaving[j] as int] == y);
    rank::lemma_lex_order(x, y, x);
    if x[0] != y[0] {
        order::keys_are_compared_from_the_front(x, y, 0);
    } else if x[1] != y[1] {
        order::keys_are_compared_from_the_front(x, y, 1);
    } else {
        let front = seq![x[0], x[1]];
        assert(x =~= front + cache::path_key(a.path@));
        assert(y =~= front + cache::path_key(b.path@));
        order::common_beginnings_do_not_matter(front, cache::path_key(a.path@), cache::path_key(b.path@));
        rank::lemma_lex_order(cache::path_key(a.path@), cache::path_key(b.path@), cache::path_key(a.path@));
    }
}

/// The bytes of files add up.
pub proof fn bytes_add_up(entries: Seq<CacheEntry>, entry: CacheEntry, chosen: Seq<usize>, at: usize)
    ensures
        cache::total_bytes(Seq::empty()) == 0,
        cache::total_bytes(entries.push(entry)) == cache::total_bytes(entries) + entry.bytes,
        cache::bytes_at(entries, Seq::empty()) == 0,
        cache::bytes_at(entries, chosen.push(at)) == cache::bytes_at(entries, chosen)
            + entries[at as int].bytes,
{
    assert(entries.push(entry).drop_last() =~= entries);
    assert(chosen.push(at).drop_last() =~= chosen);
}

/// Bytes are counted as they are, up to the largest count and down to nothing.
pub proof fn counts_stop_at_their_limits(bytes: int)
    ensures
        0 <= bytes <= u64::MAX ==> cache::clipped(bytes) == bytes,
        bytes > u64::MAX ==> cache::clipped(bytes) == u64::MAX,
        bytes < 0 ==> cache::clipped(bytes) == 0,
{
}

/// A file has to go where the cache was too large, is not yet small enough and has a file that was not
/// tried, and it is the first such file in order.
pub proof fn files_go_until_the_cache_is_small_enough(run: PruneRun)
    ensures
        run.victim() is Some <==> run.summary.bytes_before > run.summary.max_bytes
            && run.summary.bytes_after > run.summary.target_bytes && run.tried < run.order@.len(),
        run.victim() is Some ==> run.victim() == Some(run.order@[run.tried as int]),
{
}

/// The files of a stream are all those that belong to it, in their order.
pub proof fn files_of_a_stream(
    ready: Seq<ExternalReadyCachePath>,
    more: ExternalReadyCachePath,
    stream_id: i64,
    path: Seq<char>,
)
    ensures
        cache::stream_paths(ready.push(more), stream_id) == if more.stream_id == stream_id {
            cache::stream_paths(ready, stream_id).push(more.path@)
        } else {
            cache::stream_paths(ready, stream_id)
        },
        cache::stream_paths(ready, stream_id).contains(path) <==> exists|i: int|
            0 <= i < ready.len() && (#[trigger] ready[i]).stream_id == stream_id && ready[i].path@ == path,
    decreases ready.len(),
{
    assert(ready.push(more).drop_last() =~= ready);
    if ready.len() > 0 {
        let before = ready.drop_last();
        files_of_a_stream(before, ready.last(), stream_id, path);
        assert(before.push(ready.last()) =~= ready);
        let (x, y) = (cache::stream_paths(before, stream_id), cache::stream_paths(ready, stream_id));
        if y.contains(path) {
            let k = choose|k: int| 0 <= k < y.len() && y[k] == path;
            if k < x.len() {
                assert(x[k] == path);
                let i = choose|i: int|
                    0 <= i < before.len() && (#[trigger] before[i]).stream_id == stream_id
                        && before[i].path@ == path;
                assert(ready[i].path@ == path);
            } else {
                assert(ready[ready.len() - 1].path@ == path);
            }
        }
        if exists|i: int|
            0 <= i < ready.len() && (#[trigger] ready[i]).stream_id == stream_id && ready[i].path@ == path {
            let i = choose|i: int|
                0 <= i < ready.len() && (#[trigger] ready[i]).stream_id == stream_id && ready[i].path@
                    == path;
            if i < before.len() {
                assert(before[i].path@ == path);
                let k = choose|k: int| 0 <= k < x.len() && x[k] == path;
                assert(y[k] == path);
            } else {
                assert(y[x.len() as int] == path);
            }
        }
    }
}

/// The first files are kept, as many as are asked for, and all where there are fewer.
pub proof fn the_first_files_are_kept(all: Seq<Seq<char>>, limit: int)
    requires
        0 <= limit,
    ensures
        cache::first_texts(all, limit).len() == if all.len() <= limit {
            all.len() as int
        } else {
            limit
        },
        forall|i: int|
            0 <= i < cache::first_texts(all, limit).len() ==> #[trigger] cache::first_texts(all, limit)[i]
                == all[i],
{
}

/// A stream begins at its first file.
pub proof fn streams_begin_at_their_first_file(
    ready: Seq<ExternalReadyCachePath>,
    stream_id: i64,
    at: int,
)
    requires
        0 <= at <= ready.len(),
        at < ready.len() ==> ready[at].stream_id == stream_id,
        forall|i: int| 0 <= i < at ==> (#[trigger] ready[i]).stream_id != stream_id,
    ensures
        cache::first_of_stream(ready, stream_id) == at,
    decreases at,
{
    if at > 0 {
        assert(ready[0].stream_id != stream_id);
        let rest = ready.skip(1);
        assert forall|i: int| 0 <= i < at - 1 implies (#[trigger] rest[i]).stream_id != stream_id by {
            assert(ready[i + 1].stream_id != stream_id);
        }
        streams_begin_at_their_first_file(rest, stream_id, at - 1);
    }
}

/// Only files of the source are kept, and each that comes before the limit is reached.
pub proof fn only_listed_files_are_kept(
    ready: Seq<ExternalReadyCachePath>,
    turns: Seq<usize>,
    limit: int,
    path: Seq<char>,
)
    requires
        cache::kept_in_order(ready, turns, limit).contains(path),
    ensures
        exists|k: int| 0 <= k < turns.len() && ready[#[trigger] turns[k] as int].path@ == path,
    decreases turns.len(),
{
    if turns.len() > 0 {
        let before = turns.drop_last();
        if cache::kept_in_order(ready, before, limit).contains(path) {
            only_listed_files_are_kept(ready, before, limit, path);
            let k = choose|k: int| 0 <= k < before.len() && ready[#[trigger] before[k] as int].path@ == path;
            assert(turns[k] == before[k]);
        } else {
            assert(turns[turns.len() - 1] == turns.last());
        }
    }
}

/// Within a round the streams take turns in the order in which they came.
pub proof fn rounds_follow_the_order_of_streams(
    ready: Seq<ExternalReadyCachePath>,
    turns: Seq<usize>,
    a: int,
    b: int,
)
    requires
        rank::is_ranking(turns, cache::round_keys(ready)),
        0 <= a < turns.len(),
        0 <= b < turns.len(),
        ready.len() <= usize::MAX,
        cache::occurrence(ready, turns[a] as int) == cache::occurrence(ready, turns[b] as int),
        cache::first_of_stream(ready, ready[turns[a] as int].stream_id) < cache::first_of_stream(
            ready,
            ready[turns[b] as int].stream_id,
        ),
    ensures
        a < b,
{
    let keys = cache::round_keys(ready);
    let (x, y) = (
        cache::round_key(ready, turns[a] as int),
        cache::round_key(ready, turns[b] as int),
    );
    assert(keys[turns[a] as int] == x && keys[turns[b] as int] == y);
    lemma_first_bounded(ready, ready[turns[a] as int].stream_id);
    lemma_first_bounded(ready, ready[turns[b] as int].stream_id);
    assert(x[0] == y[0]);
    order::keys_are_compared_from_the_front(x, y, 1);
    rank::lemma_lex_order(x, y, x);
    if b < a {
        assert(rank::precedes(keys, turns[b] as int, turns[a] as int));
    }
}

proof fn lemma_first_bounded(ready: Seq<ExternalReadyCachePath>, stream_id: i64)
    ensures
        0 <= cache::first_of_stream(ready, stream_id) <= ready.len(),
    decreases ready.len(),
{
    if ready.len() > 0 && ready[0].stream_id != stream_id {
        lemma_first_bounded(ready.skip(1), stream_id);
    }
}

/// A number that is set counts, without the white space around it; what is not set or no number does not.
pub proof fn numbers_that_are_set_count(value: Seq<char>, default: u64)
    ensures
        cache::setting(None, default) == default,
        text::unsigned(config::trimmed(value)) is None ==> cache::setting(Some(value), default) == default,
        text::unsigned(config::trimmed(value)) is Some ==> cache::setting(Some(value), default)
            == text::unsigned(config::trimmed(value))->0,
{
}

/// A file is still being written where its name starts with `.tmp`, or where it has the extension `tmp`
/// in whatever case; and only there.
pub proof fn unfinished_files_are_known_by_their_names(path: Seq<char>)
    ensures
        cache::is_temporary(path) <==> paths::file_name(path) is Some && (".tmp"@.is_prefix_of(
            paths::file_name(path)->0,
        ) || (paths::extension(path) is Some && config::lowered(paths::extension(path)->0) == "tmp"@)),
{
}

} // verus!
