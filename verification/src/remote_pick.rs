//! Which outside images can be shown next, and what a vote on one leads to.
use crate::arena::{LockExhaustionPolicy, Presence};
use crate::asset_domain::AssetDomainLabel;
use crate::config;
use crate::config::{ImportPolicy, SourceConfig};
use crate::duel::QualityFormalVersion;
use crate::model::{ArenaHandle, AssetId, RemoteItemId, VisualKey};
use crate::pairing;
use crate::paths;
use crate::pool;
use crate::rank;
use crate::scalar::Scalar;
use crate::text;
use crate::textset::TextSet;
use vstd::prelude::*;

verus! {

/// How many of the images shown last count as shown lately.
pub const EXTERNAL_RECENT_EXCLUDE: usize = 14;

/// How many of the threads shown last are shown less.
pub const EXTERNAL_STREAM_RECENT_EXCLUDE: usize = 8;

/// How many of the threads shown last are left out while others are there.
pub const EXTERNAL_STREAM_HARD_EXCLUDE: usize = 16;

/// How many of the sources shown last are shown less.
pub const EXTERNAL_SOURCE_RECENT_EXCLUDE_CAP: usize = 6;

/// An outside image that could be shown.
#[derive(Debug)]
pub struct RemoteCandidate {
    pub item_id: RemoteItemId,
    pub stream_id: i64,
    pub visual_key: Option<VisualKey>,
    pub file_exists: bool,
}

/// An image of that number has no file.
pub open spec fn is_stale(candidates: Seq<RemoteCandidate>, item_id: RemoteItemId) -> bool {
    exists|j: int|
        0 <= j < candidates.len() && (#[trigger] candidates[j]).item_id == item_id && !candidates[j].file_exists
}

/// The image is there.
pub open spec fn materialized(candidates: Seq<RemoteCandidate>, i: int) -> bool {
    !is_stale(candidates, candidates[i].item_id)
}

fn has_stale(candidates: &Vec<RemoteCandidate>, item_id: RemoteItemId) -> (r: bool)
    ensures
        r == is_stale(candidates@, item_id),
{
    let mut i: usize = 0;
    while i < candidates.len()
        invariant
            i <= candidates.len(),
            forall|j: int|
                0 <= j < i ==> (#[trigger] candidates@[j]).item_id != item_id || candidates@[j].file_exists,
        decreases candidates.len() - i,
    {
        if candidates[i].item_id.0 == item_id.0 && !candidates[i].file_exists {
            assert(candidates@[i as int].item_id == item_id);
            return true;
        }
        i += 1;
    }
    false
}

/// Those images whose files are there.
pub fn prune_unmaterialized_remote_candidates(candidates: &Vec<RemoteCandidate>) -> (r: Vec<usize>)
    ensures
        pool::selects(r@, candidates@.len() as int, |i: int| materialized(candidates@, i)),
{
    let mut flags: Vec<bool> = Vec::new();
    let mut i: usize = 0;
    while i < candidates.len()
        invariant
            i <= candidates.len(),
            flags.len() == i,
            forall|j: int| 0 <= j < i ==> #[trigger] flags@[j] == materialized(candidates@, j),
        decreases candidates.len() - i,
    {
        flags.push(!has_stale(candidates, candidates[i].item_id));
        i += 1;
    }
    let r = pool::select(&flags);
    proof {
        pool::lemma_selects_by_flags(r@, flags@, |j: int| materialized(candidates@, j));
    }
    r
}

fn holds_item(items: &Vec<RemoteItemId>, item_id: RemoteItemId) -> (r: bool)
    ensures
        r == items@.contains(item_id),
{
    let mut i: usize = 0;
    while i < items.len()
        invariant
            i <= items.len(),
            forall|j: int| 0 <= j < i ==> #[trigger] items@[j] != item_id,
        decreases items.len() - i,
    {
        if items[i].0 == item_id.0 {
            assert(items@[i as int] == item_id);
            return true;
        }
        i += 1;
    }
    false
}

fn holds_stream(streams: &Vec<i64>, stream_id: i64) -> (r: bool)
    ensures
        r == streams@.contains(stream_id),
{
    let mut i: usize = 0;
    while i < streams.len()
        invariant
            i <= streams.len(),
            forall|j: int| 0 <= j < i ==> #[trigger] streams@[j] != stream_id,
        decreases streams.len() - i,
    {
        if streams[i] == stream_id {
            assert(streams@[i as int] == stream_id);
            return true;
        }
        i += 1;
    }
    false
}

/// Adds a thread that is not yet listed.
fn list_stream(streams: &mut Vec<i64>, stream_id: i64)
    requires
        old(streams)@.no_duplicates(),
    ensures
        final(streams)@.no_duplicates(),
        final(streams)@.to_set() == old(streams)@.to_set().insert(stream_id),
{
    if !holds_stream(streams, stream_id) {
        streams.push(stream_id);
    }
    proof {
        let before = old(streams)@;
        assert forall|x: i64| #[trigger] streams@.contains(x) <==> (before.contains(x) || x == stream_id) by {
            if before.contains(x) {
                let j = choose|j: int| 0 <= j < before.len() && before[j] == x;
                assert(streams@[j] == x);
            }
            if x == stream_id && !before.contains(x) {
                assert(streams@[before.len() as int] == x);
            }
        }
        assert(streams@.to_set() =~= before.to_set().insert(stream_id));
    }
}

/// The image can be shown as far as pictures and repeats go.
pub open spec fn source_base(
    candidates: Seq<RemoteCandidate>,
    excluded: Set<Seq<char>>,
    repeats: Option<Seq<RemoteItemId>>,
    i: int,
) -> bool {
    &&& materialized(candidates, i)
    &&& !pairing::visual_excluded(candidates[i].visual_key, excluded)
    &&& match repeats {
        None => true,
        Some(items) => !items.contains(candidates[i].item_id),
    }
}

/// The threads of the first `n` images that can be shown.
pub open spec fn base_streams(
    candidates: Seq<RemoteCandidate>,
    excluded: Set<Seq<char>>,
    repeats: Option<Seq<RemoteItemId>>,
    n: int,
) -> Set<i64>
    decreases n,
{
    if n <= 0 {
        Set::empty()
    } else {
        let before = base_streams(candidates, excluded, repeats, n - 1);
        if source_base(candidates, excluded, repeats, n - 1) {
            before.insert(candidates[n - 1].stream_id)
        } else {
            before
        }
    }
}

/// There are more threads than those shown lately, so that these can be left out.
pub open spec fn streams_suffice(
    candidates: Seq<RemoteCandidate>,
    excluded: Set<Seq<char>>,
    repeats: Option<Seq<RemoteItemId>>,
    recent_streams: Set<i64>,
) -> bool {
    base_streams(candidates, excluded, repeats, candidates.len() as int).len() > recent_streams.len()
}

/// The image can be shown from its source.
pub open spec fn source_keeps(
    candidates: Seq<RemoteCandidate>,
    excluded: Set<Seq<char>>,
    repeats: Option<Seq<RemoteItemId>>,
    recent_streams: Set<i64>,
    i: int,
) -> bool {
    source_base(candidates, excluded, repeats, i) && (streams_suffice(
        candidates,
        excluded,
        repeats,
        recent_streams,
    ) ==> !recent_streams.contains(candidates[i].stream_id))
}

/// What `repeats` stands for in contracts.
pub open spec fn items_of(repeats: Option<&Vec<RemoteItemId>>) -> Option<Seq<RemoteItemId>> {
    match repeats {
        None => None,
        Some(items) => Some(items@),
    }
}

/// The images of one source that can be shown: those whose file is there, that do not look like one
/// shown lately and, where there is enough else, that were not shown lately (`repeats`) and are not
/// of a thread shown lately.
pub fn candidates_from_source(
    candidates: &Vec<RemoteCandidate>,
    excluded: &TextSet,
    repeats: Option<&Vec<RemoteItemId>>,
    recent_streams: &Vec<i64>,
) -> (r: Vec<usize>)
    ensures
        pool::selects(
            r@,
            candidates@.len() as int,
            |i: int|
                source_keeps(
                    candidates@,
                    excluded@,
                    items_of(repeats),
                    recent_streams@.to_set(),
                    i,
                ),
        ),
{
    let ghost items = items_of(repeats);
    let mut recent: Vec<i64> = Vec::new();
    let mut s: usize = 0;
    assert(recent@.to_set() =~= recent_streams@.take(0).to_set());
    while s < recent_streams.len()
        invariant
            s <= recent_streams.len(),
            recent@.no_duplicates(),
            recent@.to_set() == recent_streams@.take(s as int).to_set(),
        decreases recent_streams.len() - s,
    {
        list_stream(&mut recent, recent_streams[s]);
        proof {
            let before = recent_streams@.take(s as int);
            let after = recent_streams@.take(s + 1);
            assert(after =~= before.push(recent_streams@[s as int]));
            assert forall|x: i64| #[trigger] after.contains(x) <==> (before.contains(x) || x
                == recent_streams@[s as int]) by {
                if before.contains(x) {
                    let j = choose|j: int| 0 <= j < before.len() && before[j] == x;
                    assert(after[j] == x);
                }
                assert(after[s as int] == recent_streams@[s as int]);
            }
            assert(after.to_set() =~= before.to_set().insert(recent_streams@[s as int]));
        }
        s += 1;
    }
    assert(recent_streams@.take(s as int) =~= recent_streams@);
    let mut flags: Vec<bool> = Vec::new();
    let mut streams: Vec<i64> = Vec::new();
    let mut i: usize = 0;
    assert(streams@.to_set() =~= Set::<i64>::empty());
    while i < candidates.len()
        invariant
            i <= candidates.len(),
            items == items_of(repeats),
            flags.len() == i,
            streams@.no_duplicates(),
            streams@.to_set() == base_streams(candidates@, excluded@, items, i as int),
            forall|j: int| 0 <= j < i ==> #[trigger] flags@[j] == source_base(candidates@, excluded@, items, j),
        decreases candidates.len() - i,
    {
        let item_id = candidates[i].item_id;
        let keep = !has_stale(candidates, item_id) && !pairing::visual_key_excluded(
            &candidates[i].visual_key,
            excluded,
        ) && match repeats {
            None => true,
            Some(held) => !holds_item(held, item_id),
        };
        if keep {
            list_stream(&mut streams, candidates[i].stream_id);
        }
        flags.push(keep);
        i += 1;
    }
    proof {
        streams@.unique_seq_to_set();
        recent@.unique_seq_to_set();
    }
    if streams.len() > recent.len() {
        let mut narrowed: Vec<bool> = Vec::new();
        let mut k: usize = 0;
        while k < candidates.len()
            invariant
                k <= candidates.len(),
                flags.len() == candidates.len(),
                narrowed.len() == k,
                items == items_of(repeats),
                recent@.to_set() == recent_streams@.to_set(),
                streams_suffice(candidates@, excluded@, items, recent_streams@.to_set()),
                forall|j: int|
                    0 <= j < candidates.len() ==> #[trigger] flags@[j] == source_base(
                        candidates@,
                        excluded@,
                        items,
                        j,
                    ),
                forall|j: int|
                    0 <= j < k ==> #[trigger] narrowed@[j] == source_keeps(
                        candidates@,
                        excluded@,
                        items,
                        recent_streams@.to_set(),
                        j,
                    ),
            decreases candidates.len() - k,
        {
            let listed = holds_stream(&recent, candidates[k].stream_id);
            assert(recent@.to_set().contains(candidates@[k as int].stream_id) == listed);
            let keep = flags[k] && !listed;
            narrowed.push(keep);
            k += 1;
        }
        flags = narrowed;
    }
    let r = pool::select(&flags);
    proof {
        pool::lemma_selects_by_flags(
            r@,
            flags@,
            |j: int| source_keeps(candidates@, excluded@, items, recent_streams@.to_set(), j),
        );
    }
    r
}

proof fn lemma_base_streams_member(
    candidates: Seq<RemoteCandidate>,
    excluded: Set<Seq<char>>,
    repeats: Option<Seq<RemoteItemId>>,
    n: int,
    x: i64,
)
    requires
        base_streams(candidates, excluded, repeats, n).contains(x),
    ensures
        exists|i: int|
            0 <= i < n && source_base(candidates, excluded, repeats, i) && #[trigger] candidates[i].stream_id
                == x,
    decreases n,
{
    if n > 0 {
        if source_base(candidates, excluded, repeats, n - 1) && candidates[n - 1].stream_id == x {
        } else {
            lemma_base_streams_member(candidates, excluded, repeats, n - 1, x);
        }
    }
}

proof fn lemma_base_streams_finite(
    candidates: Seq<RemoteCandidate>,
    excluded: Set<Seq<char>>,
    repeats: Option<Seq<RemoteItemId>>,
    n: int,
)
    ensures
        base_streams(candidates, excluded, repeats, n).finite(),
    decreases n,
{
    if n > 0 {
        lemma_base_streams_finite(candidates, excluded, repeats, n - 1);
    }
}

/// Leaving out the threads shown lately never leaves a source without an image: where it had one to
/// show, it still has.
pub proof fn leaving_out_threads_leaves_images(
    candidates: Seq<RemoteCandidate>,
    excluded: Set<Seq<char>>,
    repeats: Option<Seq<RemoteItemId>>,
    recent_streams: Set<i64>,
    i: int,
)
    requires
        recent_streams.finite(),
        0 <= i < candidates.len(),
        source_base(candidates, excluded, repeats, i),
    ensures
        exists|k: int|
            0 <= k < candidates.len() && #[trigger] source_keeps(
                candidates,
                excluded,
                repeats,
                recent_streams,
                k,
            ),
{
    let n = candidates.len() as int;
    let all = base_streams(candidates, excluded, repeats, n);
    if streams_suffice(candidates, excluded, repeats, recent_streams) {
        lemma_base_streams_finite(candidates, excluded, repeats, n);
        assert(exists|x: i64| all.contains(x) && !recent_streams.contains(x)) by {
            if forall|x: i64| all.contains(x) ==> recent_streams.contains(x) {
                vstd::set_lib::lemma_len_subset(all, recent_streams);
            }
        }
        let x = choose|x: i64| all.contains(x) && !recent_streams.contains(x);
        lemma_base_streams_member(candidates, excluded, repeats, n, x);
        let k = choose|k: int|
            0 <= k < n && source_base(candidates, excluded, repeats, k) && #[trigger] candidates[k].stream_id
                == x;
        assert(source_keeps(candidates, excluded, repeats, recent_streams, k));
    } else {
        assert(source_keeps(candidates, excluded, repeats, recent_streams, i));
    }
}

/// The image is of the locked thread.
pub open spec fn in_lock(candidates: Seq<RemoteCandidate>, stream_id: i64, i: int) -> bool {
    materialized(candidates, i) && candidates[i].stream_id == stream_id
}

/// Some image of the locked thread does not look like one shown lately.
pub open spec fn lock_has_unseen(
    candidates: Seq<RemoteCandidate>,
    stream_id: i64,
    excluded: Set<Seq<char>>,
) -> bool {
    exists|j: int|
        0 <= j < candidates.len() && #[trigger] in_lock(candidates, stream_id, j)
            && !pairing::visual_excluded(candidates[j].visual_key, excluded)
}

/// The image is of the locked thread and, while there are others, does not look like one shown
/// lately.
pub open spec fn lock_visible(
    candidates: Seq<RemoteCandidate>,
    stream_id: i64,
    excluded: Set<Seq<char>>,
    i: int,
) -> bool {
    in_lock(candidates, stream_id, i) && (lock_has_unseen(candidates, stream_id, excluded)
        ==> !pairing::visual_excluded(candidates[i].visual_key, excluded))
}

/// Some such image was not shown lately.
pub open spec fn lock_has_fresh(
    candidates: Seq<RemoteCandidate>,
    stream_id: i64,
    excluded: Set<Seq<char>>,
    recent: Seq<RemoteItemId>,
) -> bool {
    exists|j: int|
        0 <= j < candidates.len() && #[trigger] lock_visible(candidates, stream_id, excluded, j)
            && !recent.contains(candidates[j].item_id)
}

/// The image can be shown from the locked thread.
pub open spec fn lock_keeps(
    candidates: Seq<RemoteCandidate>,
    stream_id: i64,
    excluded: Set<Seq<char>>,
    recent: Seq<RemoteItemId>,
    i: int,
) -> bool {
    lock_visible(candidates, stream_id, excluded, i) && (lock_has_fresh(
        candidates,
        stream_id,
        excluded,
        recent,
    ) ==> !recent.contains(candidates[i].item_id))
}

fn any(flags: &Vec<bool>) -> (r: bool)
    ensures
        r == exists|j: int| 0 <= j < flags@.len() && #[trigger] flags@[j],
{
    let mut i: usize = 0;
    while i < flags.len()
        invariant
            i <= flags.len(),
            forall|j: int| 0 <= j < i ==> !#[trigger] flags@[j],
        decreases flags.len() - i,
    {
        if flags[i] {
            return true;
        }
        i += 1;
    }
    false
}

/// The images of a locked thread from which one is drawn to be shown: while there are others, none
/// that looks like one shown lately or was itself shown lately.
pub fn candidates_from_locked_stream(
    candidates: &Vec<RemoteCandidate>,
    stream_id: i64,
    excluded: &TextSet,
    recent: &Vec<RemoteItemId>,
) -> (r: Vec<usize>)
    ensures
        pool::selects(
            r@,
            candidates@.len() as int,
            |i: int| lock_keeps(candidates@, stream_id, excluded@, recent@, i),
        ),
{
    let n = candidates.len();
    let mut locked: Vec<bool> = Vec::new();
    let mut unseen: Vec<bool> = Vec::new();
    let mut i: usize = 0;
    while i < n
        invariant
            i <= n,
            n == candidates.len(),
            locked.len() == i,
            unseen.len() == i,
            forall|j: int| 0 <= j < i ==> #[trigger] locked@[j] == in_lock(candidates@, stream_id, j),
            forall|j: int|
                0 <= j < i ==> #[trigger] unseen@[j] == (in_lock(candidates@, stream_id, j)
                    && !pairing::visual_excluded(candidates@[j].visual_key, excluded@)),
        decreases n - i,
    {
        let held = candidates[i].stream_id == stream_id && !has_stale(candidates, candidates[i].item_id);
        let seen = pairing::visual_key_excluded(&candidates[i].visual_key, excluded);
        locked.push(held);
        unseen.push(held && !seen);
        i += 1;
    }
    let has_unseen = any(&unseen);
    proof {
        if has_unseen {
            let j = choose|j: int| 0 <= j < unseen@.len() && #[trigger] unseen@[j];
            assert(in_lock(candidates@, stream_id, j));
        } else if lock_has_unseen(candidates@, stream_id, excluded@) {
            let j = choose|j: int|
                0 <= j < candidates@.len() && #[trigger] in_lock(candidates@, stream_id, j)
                    && !pairing::visual_excluded(candidates@[j].visual_key, excluded@);
            assert(unseen@[j]);
        }
    }
    let visible = if has_unseen {
        unseen
    } else {
        locked
    };
    assert forall|j: int| 0 <= j < visible@.len() implies #[trigger] visible@[j] == lock_visible(
        candidates@,
        stream_id,
        excluded@,
        j,
    ) by {
        if has_unseen {
            assert(visible@[j] == unseen@[j]);
        } else {
            assert(visible@[j] == locked@[j]);
        }
    }
    let mut fresh: Vec<bool> = Vec::new();
    let mut k: usize = 0;
    while k < n
        invariant
            k <= n,
            n == candidates.len(),
            n == visible.len(),
            fresh.len() == k,
            forall|j: int|
                0 <= j < n ==> #[trigger] visible@[j] == lock_visible(candidates@, stream_id, excluded@, j),
            forall|j: int|
                0 <= j < k ==> #[trigger] fresh@[j] == (lock_visible(
                    candidates@,
                    stream_id,
                    excluded@,
                    j,
                ) && !recent@.contains(candidates@[j].item_id)),
        decreases n - k,
    {
        let keep = visible[k] && !holds_item(recent, candidates[k].item_id);
        fresh.push(keep);
        k += 1;
    }
    let has_fresh = any(&fresh);
    proof {
        if has_fresh {
            let j = choose|j: int| 0 <= j < fresh@.len() && #[trigger] fresh@[j];
            assert(lock_visible(candidates@, stream_id, excluded@, j));
        } else if lock_has_fresh(candidates@, stream_id, excluded@, recent@) {
            let j = choose|j: int|
                0 <= j < candidates@.len() && #[trigger] lock_visible(
                    candidates@,
                    stream_id,
                    excluded@,
                    j,
                ) && !recent@.contains(candidates@[j].item_id);
            assert(fresh@[j]);
        }
    }
    let chosen = if has_fresh {
        fresh
    } else {
        visible
    };
    assert forall|j: int| 0 <= j < chosen@.len() implies #[trigger] chosen@[j] == lock_keeps(
        candidates@,
        stream_id,
        excluded@,
        recent@,
        j,
    ) by {
        if has_fresh {
            assert(chosen@[j] == fresh@[j]);
        } else {
            assert(chosen@[j] == visible@[j]);
        }
    }
    let r = pool::select(&chosen);
    proof {
        pool::lemma_selects_by_flags(
            r@,
            chosen@,
            |j: int| lock_keeps(candidates@, stream_id, excluded@, recent@, j),
        );
    }
    r
}

/// The image is of the locked thread, does not look like one shown lately and was not itself shown
/// lately.
pub open spec fn lock_fresh(
    candidates: Seq<RemoteCandidate>,
    stream_id: i64,
    excluded: Set<Seq<char>>,
    recent: Seq<RemoteItemId>,
    i: int,
) -> bool {
    in_lock(candidates, stream_id, i) && !pairing::visual_excluded(
        candidates[i].visual_key,
        excluded,
    ) && !recent.contains(candidates[i].item_id)
}

/// The images of a locked thread that were not shown lately and do not look like one that was; there
/// is no falling back on others.
pub fn fresh_candidates_from_locked_stream(
    candidates: &Vec<RemoteCandidate>,
    stream_id: i64,
    excluded: &TextSet,
    recent: &Vec<RemoteItemId>,
) -> (r: Vec<usize>)
    ensures
        pool::selects(
            r@,
            candidates@.len() as int,
            |i: int| lock_fresh(candidates@, stream_id, excluded@, recent@, i),
        ),
{
    let n = candidates.len();
    let mut fresh: Vec<bool> = Vec::new();
    let mut i: usize = 0;
    while i < n
        invariant
            i <= n,
            n == candidates.len(),
            fresh.len() == i,
            forall|j: int|
                0 <= j < i ==> #[trigger] fresh@[j] == lock_fresh(
                    candidates@,
                    stream_id,
                    excluded@,
                    recent@,
                    j,
                ),
        decreases n - i,
    {
        let item = candidates[i].item_id;
        let held = candidates[i].stream_id == stream_id && !has_stale(candidates, item);
        let seen = pairing::visual_key_excluded(&candidates[i].visual_key, excluded);
        fresh.push(held && !seen && !holds_item(recent, item));
        i += 1;
    }
    let r = pool::select(&fresh);
    proof {
        pool::lemma_selects_by_flags(
            r@,
            fresh@,
            |j: int| lock_fresh(candidates@, stream_id, excluded@, recent@, j),
        );
    }
    r
}

/// The image is offered by the locked thread: to a search whose pair is shown as the best there is, to
/// one that only looks ahead where it is fresh.
pub open spec fn lock_offers(
    policy: LockExhaustionPolicy,
    candidates: Seq<RemoteCandidate>,
    stream_id: i64,
    excluded: Set<Seq<char>>,
    recent: Seq<RemoteItemId>,
    i: int,
) -> bool {
    match policy {
        LockExhaustionPolicy::ClearAndRetry => lock_keeps(
            candidates,
            stream_id,
            excluded,
            recent,
            i,
        ),
        LockExhaustionPolicy::PreserveAndStop => lock_fresh(
            candidates,
            stream_id,
            excluded,
            recent,
            i,
        ),
    }
}

/// The images that the locked thread offers to a search.
pub fn offers_of_locked_stream(
    policy: LockExhaustionPolicy,
    candidates: &Vec<RemoteCandidate>,
    stream_id: i64,
    excluded: &TextSet,
    recent: &Vec<RemoteItemId>,
) -> (r: Vec<usize>)
    ensures
        pool::selects(
            r@,
            candidates@.len() as int,
            |i: int| lock_offers(policy, candidates@, stream_id, excluded@, recent@, i),
        ),
{
    let r = match policy {
        LockExhaustionPolicy::ClearAndRetry => candidates_from_locked_stream(
            candidates,
            stream_id,
            excluded,
            recent,
        ),
        LockExhaustionPolicy::PreserveAndStop => fresh_candidates_from_locked_stream(
            candidates,
            stream_id,
            excluded,
            recent,
        ),
    };
    assert(pool::selects(
        r@,
        candidates@.len() as int,
        |i: int| lock_offers(policy, candidates@, stream_id, excluded@, recent@, i),
    ));
    r
}

/// To a search whose pair is shown, and which would release the lock, a locked thread with an image
/// whose file is there always offers one, however lately all of them were shown. One that only looks
/// ahead is offered fresh images alone.
pub proof fn a_locked_thread_does_not_run_dry(
    candidates: Seq<RemoteCandidate>,
    stream_id: i64,
    excluded: Set<Seq<char>>,
    recent: Seq<RemoteItemId>,
    i: int,
)
    requires
        0 <= i < candidates.len(),
        in_lock(candidates, stream_id, i),
    ensures
        exists|k: int|
            0 <= k < candidates.len() && #[trigger] lock_keeps(candidates, stream_id, excluded, recent, k),
{
    let visible = if lock_has_unseen(candidates, stream_id, excluded) {
        choose|j: int|
            0 <= j < candidates.len() && #[trigger] in_lock(candidates, stream_id, j)
                && !pairing::visual_excluded(candidates[j].visual_key, excluded)
    } else {
        i
    };
    assert(lock_visible(candidates, stream_id, excluded, visible));
    let k = if lock_has_fresh(candidates, stream_id, excluded, recent) {
        choose|j: int|
            0 <= j < candidates.len() && #[trigger] lock_visible(candidates, stream_id, excluded, j)
                && !recent.contains(candidates[j].item_id)
    } else {
        visible
    };
    assert(lock_keeps(candidates, stream_id, excluded, recent, k));
}

/// How many values come behind the first place of `value`, if the list holds it: zero for one that
/// stands only at the end.
pub fn oldest_rank(list: &Vec<i64>, value: i64) -> (r: Option<usize>)
    ensures
        match r {
            None => !list@.contains(value),
            Some(rank) => {
                let at = list@.len() - 1 - rank;
                &&& rank < list@.len()
                &&& list@[at] == value
                &&& forall|j: int| 0 <= j < at ==> #[trigger] list@[j] != value
            },
        },
{
    let mut i: usize = 0;
    while i < list.len()
        invariant
            i <= list.len(),
            forall|j: int| 0 <= j < i ==> #[trigger] list@[j] != value,
        decreases list.len() - i,
    {
        if list[i] == value {
            return Some(list.len() - 1 - i);
        }
        i += 1;
    }
    None
}

/// The sum of all counts.
pub open spec fn total(counts: Seq<usize>) -> int
    decreases counts.len(),
{
    if counts.len() == 0 {
        0
    } else {
        total(counts.drop_last()) + counts.last()
    }
}

/// Whether enough outside images are ready that none has to be shown twice in a row of `window`.
pub fn repeats_can_be_left_out(ready: &Vec<usize>, window: usize) -> (r: bool)
    ensures
        r == (window < usize::MAX && total(ready@) > window),
{
    let mut sum: usize = 0;
    let mut i: usize = 0;
    while i < ready.len()
        invariant
            i <= ready.len(),
            sum == if total(ready@.take(i as int)) > usize::MAX {
                usize::MAX as int
            } else {
                total(ready@.take(i as int))
            },
            total(ready@.take(i as int)) >= 0,
        decreases ready.len() - i,
    {
        proof {
            assert(ready@.take(i + 1).drop_last() =~= ready@.take(i as int));
        }
        sum = sum.saturating_add(ready[i]);
        i += 1;
    }
    assert(ready@.take(i as int) =~= ready@);
    sum > window
}

/// The sources that take part: those with a positive weight.
pub fn weighted_sources(weights: &Vec<Scalar>) -> (r: Vec<usize>)
    ensures
        pool::selects(
            r@,
            weights@.len() as int,
            |i: int| (Scalar { bits: 0 }).below(weights@[i]),
        ),
{
    let zero = Scalar { bits: 0 };
    let mut flags: Vec<bool> = Vec::new();
    let mut i: usize = 0;
    while i < weights.len()
        invariant
            i <= weights.len(),
            zero == (Scalar { bits: 0 }),
            flags.len() == i,
            forall|j: int| 0 <= j < i ==> #[trigger] flags@[j] == (Scalar { bits: 0 }).below(weights@[j]),
        decreases weights.len() - i,
    {
        flags.push(zero.is_below(weights[i]));
        i += 1;
    }
    let r = pool::select(&flags);
    proof {
        pool::lemma_selects_by_flags(
            r@,
            flags@,
            |j: int| (Scalar { bits: 0 }).below(weights@[j]),
        );
    }
    r
}

/// How many of the sources shown last are shown less: one at least and six at most.
pub fn source_recent_exclude_window(source_count: usize) -> (r: usize)
    ensures
        r == if source_count < 1 {
            1
        } else if source_count > EXTERNAL_SOURCE_RECENT_EXCLUDE_CAP {
            EXTERNAL_SOURCE_RECENT_EXCLUDE_CAP
        } else {
            source_count
        },
{
    if source_count < 1 {
        1
    } else if source_count > EXTERNAL_SOURCE_RECENT_EXCLUDE_CAP {
        EXTERNAL_SOURCE_RECENT_EXCLUDE_CAP
    } else {
        source_count
    }
}

/// What the bonus of a thread is computed from.
#[derive(Debug, Clone, Copy, PartialEq, Eq, Structural)]
pub struct StreamBonusBasis {
    /// How many images the thread has, between one and twenty-five.
    pub image_count: u32,
    /// How many seconds ago the thread changed.
    pub age_seconds: i64,
}

/// What the bonus of a thread is computed from. The folders of a local directory get none: they
/// are neither large nor new in the way that threads are.
pub fn stream_bonus_basis(
    source: &SourceConfig,
    now: i64,
    stream_last_modified: i64,
    stream_image_count: u32,
) -> (r: Option<StreamBonusBasis>)
    requires
        !(source.upstream is LocalDirectory) ==> i64::MIN <= now - stream_last_modified <= i64::MAX,
    ensures
        r == if source.upstream is LocalDirectory {
            None
        } else {
            Some(
                StreamBonusBasis {
                    image_count: if stream_image_count < 1 {
                        1
                    } else if stream_image_count > 25 {
                        25
                    } else {
                        stream_image_count
                    },
                    age_seconds: if now > stream_last_modified {
                        (now - stream_last_modified) as i64
                    } else {
                        0
                    },
                },
            )
        },
{
    if source.local_directory().is_some() {
        return None;
    }
    let image_count: u32 = if stream_image_count < 1 {
        1
    } else if stream_image_count > 25 {
        25
    } else {
        stream_image_count
    };
    let age_seconds: i64 = if now > stream_last_modified {
        now - stream_last_modified
    } else {
        0
    };
    Some(StreamBonusBasis { image_count, age_seconds })
}

/// Where the summary of an outside image's quality comes from.
#[derive(Debug, Clone, Copy, PartialEq, Eq, Structural)]
pub enum RemoteSummarySource {
    /// The session's own model over embeddings.
    Legacy,
    /// The session has no posterior yet: a baseline stands in.
    Baseline,
    HierarchicalCache,
    PerturbativeCache,
    /// Priors, of which the technical one and the mood are there only for photographs with features.
    HierarchicalPrior { technical: bool, vibe: bool },
    PerturbativePrior { technical: bool, domain: AssetDomainLabel },
}

/// Where the summary of an outside image's quality comes from.
pub open spec fn remote_summary_source_of(
    quality_model: QualityFormalVersion,
    session_posterior: bool,
    cached_posterior: bool,
    domain: Option<AssetDomainLabel>,
    has_features: bool,
) -> RemoteSummarySource {
    let photo = domain == Some(AssetDomainLabel::Real);
    if quality_model == QualityFormalVersion::LegacyIndependentV1 {
        RemoteSummarySource::Legacy
    } else if !session_posterior {
        RemoteSummarySource::Baseline
    } else if quality_model == QualityFormalVersion::HierarchicalGaussianV1 {
        if cached_posterior {
            RemoteSummarySource::HierarchicalCache
        } else {
            RemoteSummarySource::HierarchicalPrior {
                technical: photo && has_features,
                vibe: photo && has_features,
            }
        }
    } else if cached_posterior {
        RemoteSummarySource::PerturbativeCache
    } else {
        RemoteSummarySource::PerturbativePrior {
            technical: photo && has_features,
            domain: if photo {
                AssetDomainLabel::Real
            } else {
                AssetDomainLabel::Anime
            },
        }
    }
}

/// Where the summary of an outside image's quality comes from.
pub fn remote_summary_source(
    quality_model: QualityFormalVersion,
    session_posterior: bool,
    cached_posterior: bool,
    domain: Option<AssetDomainLabel>,
    has_features: bool,
) -> (r: RemoteSummarySource)
    ensures
        r == remote_summary_source_of(
            quality_model,
            session_posterior,
            cached_posterior,
            domain,
            has_features,
        ),
{
    let photo = match domain {
        Some(AssetDomainLabel::Real) => true,
        _ => false,
    };
    match quality_model {
        QualityFormalVersion::LegacyIndependentV1 => RemoteSummarySource::Legacy,
        QualityFormalVersion::HierarchicalGaussianV1 => {
            if !session_posterior {
                RemoteSummarySource::Baseline
            } else if cached_posterior {
                RemoteSummarySource::HierarchicalCache
            } else {
                RemoteSummarySource::HierarchicalPrior {
                    technical: photo && has_features,
                    vibe: photo && has_features,
                }
            }
        },
        _ => {
            if !session_posterior {
                RemoteSummarySource::Baseline
            } else if cached_posterior {
                RemoteSummarySource::PerturbativeCache
            } else {
                RemoteSummarySource::PerturbativePrior {
                    technical: photo && has_features,
                    domain: if photo {
                        AssetDomainLabel::Real
                    } else {
                        AssetDomainLabel::Anime
                    },
                }
            }
        },
    }
}

/// What is noted of an outside image.
#[derive(Debug, Clone, Copy, PartialEq, Eq, Structural)]
pub enum ExternalEventKind {
    Rejected,
    LocalWin,
    RemoteWin,
    Hearted,
    Kept,
}

/// What a vote on an outside image leads to.
#[derive(Debug, Clone, Copy, PartialEq, Eq, Structural)]
pub enum RemoteDuelOutcome {
    /// One of the images is gone: the vote does nothing.
    Ignored,
    /// The outside image is to be taken into the collection.
    QueueImport(ExternalEventKind),
    /// Only the result is noted.
    Record(ExternalEventKind),
}

/// The winner is neither of the two images.
#[derive(Debug, Clone, Copy, PartialEq, Eq, Structural)]
pub struct ForeignRemoteWinner;

impl ForeignRemoteWinner {
    /// What is said of the refusal.
    pub fn message(&self) -> (r: String)
        ensures
            r@ == "remote duel winner is not one of the compared assets"@,
    {
        "remote duel winner is not one of the compared assets".to_owned()
    }
}

/// Both images of the duel can still be shown.
pub open spec fn duel_stands(local: Option<Presence>, remote: Option<Presence>) -> bool {
    match (local, remote) {
        (Some(local), Some(remote)) => !local.hidden && local.file_exists && remote.file_exists,
        _ => false,
    }
}

/// What a vote between an image of the collection and an outside one leads to. An outside image that
/// wins is taken in; one that loses is taken in too, unless its source takes in only what is
/// hearted. A source that is not configured any more takes in everything.
pub open spec fn remote_duel_outcome(
    local: Option<Presence>,
    remote: Option<Presence>,
    policy: Option<ImportPolicy>,
    local_id: Seq<char>,
    remote_id: RemoteItemId,
    winner: ArenaHandle,
) -> Result<RemoteDuelOutcome, ForeignRemoteWinner> {
    if !duel_stands(local, remote) {
        Ok(RemoteDuelOutcome::Ignored)
    } else {
        match winner {
            ArenaHandle::Local(id) => if id@ != local_id {
                Err(ForeignRemoteWinner)
            } else if policy is None || policy == Some(ImportPolicy::NotX) {
                Ok(RemoteDuelOutcome::QueueImport(ExternalEventKind::LocalWin))
            } else {
                Ok(RemoteDuelOutcome::Record(ExternalEventKind::LocalWin))
            },
            ArenaHandle::Remote(id) => if id != remote_id {
                Err(ForeignRemoteWinner)
            } else {
                Ok(RemoteDuelOutcome::QueueImport(ExternalEventKind::RemoteWin))
            },
        }
    }
}

/// What a vote between an image of the collection and an outside one leads to.
pub fn vote_remote_duel(
    local: Option<Presence>,
    remote: Option<Presence>,
    policy: Option<ImportPolicy>,
    local_id: &AssetId,
    remote_id: RemoteItemId,
    winner: &ArenaHandle,
) -> (r: Result<RemoteDuelOutcome, ForeignRemoteWinner>)
    ensures
        r == remote_duel_outcome(local, remote, policy, local_id@, remote_id, *winner),
{
    match (local, remote) {
        (Some(local), Some(remote)) => {
            if local.hidden || !local.file_exists || !remote.file_exists {
                return Ok(RemoteDuelOutcome::Ignored);
            }
        },
        _ => {
            return Ok(RemoteDuelOutcome::Ignored);
        },
    }
    match winner {
        ArenaHandle::Local(id) => {
            if !id.same(local_id) {
                return Err(ForeignRemoteWinner);
            }
            match policy {
                Some(ImportPolicy::Hearted) => Ok(
                    RemoteDuelOutcome::Record(ExternalEventKind::LocalWin),
                ),
                _ => Ok(RemoteDuelOutcome::QueueImport(ExternalEventKind::LocalWin)),
            }
        },
        ArenaHandle::Remote(id) => {
            if id.0 != remote_id.0 {
                return Err(ForeignRemoteWinner);
            }
            Ok(RemoteDuelOutcome::QueueImport(ExternalEventKind::RemoteWin))
        },
    }
}

/// An outside image that wins is always taken in, whatever its source's policy.
pub proof fn winners_are_taken_in(
    local: Option<Presence>,
    remote: Option<Presence>,
    policy: Option<ImportPolicy>,
    local_id: Seq<char>,
    remote_id: RemoteItemId,
)
    requires
        duel_stands(local, remote),
    ensures
        remote_duel_outcome(
            local,
            remote,
            policy,
            local_id,
            remote_id,
            ArenaHandle::Remote(remote_id),
        ) == Ok::<RemoteDuelOutcome, ForeignRemoteWinner>(
            RemoteDuelOutcome::QueueImport(ExternalEventKind::RemoteWin),
        ),
{
}

/// What is noted of an outside image that is taken in at once.
pub fn enshrined_as(hearted: bool) -> (r: ExternalEventKind)
    ensures
        r == if hearted {
            ExternalEventKind::Hearted
        } else {
            ExternalEventKind::Kept
        },
{
    if hearted {
        ExternalEventKind::Hearted
    } else {
        ExternalEventKind::Kept
    }
}

/// The name of a source in paths: everything but letters and digits of ASCII becomes a hyphen.
pub open spec fn path_key(source_key: Seq<char>) -> Seq<char> {
    source_key.map_values(
        |c: char|
            if config::is_alphanumeric(c) {
                c
            } else {
                '-'
            },
    )
}

/// The name of a source in paths.
pub fn sanitize_source_key(source_key: &str) -> (r: String)
    ensures
        r@ == path_key(source_key@),
{
    let chars = text::chars_of(source_key);
    let mut r = String::new();
    let mut i: usize = 0;
    assert(path_key(source_key@.take(0)) =~= Seq::<char>::empty());
    while i < chars.len()
        invariant
            i <= chars.len(),
            chars@ == source_key@,
            r@ == path_key(source_key@.take(i as int)),
        decreases chars.len() - i,
    {
        let c = chars[i];
        proof {
            assert(path_key(source_key@.take(i + 1)) =~= path_key(source_key@.take(i as int)).push(
                if config::is_alphanumeric(c) {
                    c
                } else {
                    '-'
                },
            ));
        }
        if config::char_is_alphanumeric(c) {
            r.push(c);
        } else {
            r.push('-');
        }
        i += 1;
    }
    assert(source_key@.take(i as int) =~= source_key@);
    r
}

/// The extension of a path in lower case, or `img` where it has none.
pub open spec fn kept_extension(path: Seq<char>) -> Seq<char> {
    match paths::extension(path) {
        None => "img"@,
        Some(ext) => if ext.len() == 0 {
            "img"@
        } else {
            config::lowered(ext)
        },
    }
}

/// The extension of a path in lower case, or `img` where it has none.
pub fn extension_or_fallback(path: &str) -> (r: String)
    ensures
        r@ == kept_extension(path@),
{
    match paths::extension_of(path) {
        None => "img".to_owned(),
        Some(ext) => {
            if ext.as_str().is_empty() {
                "img".to_owned()
            } else {
                config::to_lower(ext.as_str())
            }
        },
    }
}

/// The name of the file that an outside image is taken in as.
pub fn import_name(thread_no: i64, post_no: i64, extension: &str) -> (r: String)
    ensures
        r@ == text::signed_decimal(thread_no as int) + "-"@ + text::signed_decimal(post_no as int) + "."@
            + extension@,
{
    let mut r = String::new();
    text::push_signed_decimal(&mut r, thread_no);
    r.append("-");
    text::push_signed_decimal(&mut r, post_no);
    r.append(".");
    r.append(extension);
    proof {
        assert(r@ =~= text::signed_decimal(thread_no as int) + "-"@ + text::signed_decimal(
            post_no as int,
        ) + "."@ + extension@);
    }
    r
}

/// Whether the image at an address is a file of this machine, to be read where it lies.
pub fn is_file_address(address: &str) -> (r: bool)
    ensures
        r == "file://"@.is_prefix_of(address@),
{
    text::starts_with(address, "file://")
}

/// A face found in an outside image. `area` is the product of its sides.
#[derive(Debug, Clone, Copy, PartialEq, Eq, Structural)]
pub struct ProbeFace {
    pub width: Scalar,
    pub height: Scalar,
    pub area: Scalar,
    pub confidence: Scalar,
    /// The face was deleted by the user before.
    pub tombstoned: bool,
}

/// The face is large enough to be recognised.
pub open spec fn face_counts(face: ProbeFace, min_side: Scalar) -> bool {
    &&& face.width.reaches(min_side)
    &&& face.height.reaches(min_side)
    &&& (Scalar { bits: 0 }).below(face.width)
    &&& (Scalar { bits: 0 }).below(face.height)
    &&& !face.tombstoned
}

/// What faces are ordered by: area, then confidence.
pub open spec fn face_size_key(face: ProbeFace) -> Seq<i128> {
    seq![face.area.place() as i128, face.confidence.place() as i128]
}

/// `at` is the place of the largest face that counts, the last of several.
pub open spec fn is_largest_face(at: int, faces: Seq<ProbeFace>, min_side: Scalar) -> bool {
    &&& 0 <= at < faces.len()
    &&& face_counts(faces[at], min_side)
    &&& forall|j: int|
        0 <= j < faces.len() && face_counts(#[trigger] faces[j], min_side) ==> !rank::lex_lt(
            face_size_key(faces[at]),
            face_size_key(faces[j]),
        )
    &&& forall|j: int|
        at < j < faces.len() && face_counts(#[trigger] faces[j], min_side) ==> rank::lex_lt(
            face_size_key(faces[j]),
            face_size_key(faces[at]),
        )
}

/// The largest face by which an outside image is recognised.
pub fn largest_face(faces: &Vec<ProbeFace>, min_side: Scalar) -> (r: Option<usize>)
    ensures
        match r {
            None => forall|j: int|
                0 <= j < faces@.len() ==> !face_counts(#[trigger] faces@[j], min_side),
            Some(at) => is_largest_face(at as int, faces@, min_side),
        },
{
    let zero = Scalar { bits: 0 };
    let mut places: Vec<usize> = Vec::new();
    let mut keys: Vec<Vec<i128>> = Vec::new();
    let mut i: usize = 0;
    while i < faces.len()
        invariant
            i <= faces.len(),
            zero == (Scalar { bits: 0 }),
            places.len() == keys.len(),
            forall|k: int|
                0 <= k < places.len() ==> (#[trigger] places@[k]) < i && face_counts(
                    faces@[places@[k] as int],
                    min_side,
                ),
            forall|k: int|
                0 <= k < places.len() ==> (#[trigger] keys@[k])@ == face_size_key(
                    faces@[places@[k] as int],
                ),
            forall|k: int, m: int|
                0 <= k < m < places.len() ==> (#[trigger] places@[k]) < (#[trigger] places@[m]),
            forall|j: usize|
                j < i && face_counts(faces@[j as int], min_side) ==> #[trigger] places@.contains(j),
        decreases faces.len() - i,
    {
        let face = faces[i];
        let ghost before = places@;
        let counts = face.width.does_reach(min_side) && face.height.does_reach(min_side)
            && zero.is_below(face.width) && zero.is_below(face.height) && !face.tombstoned;
        if counts {
            let key = vec![face.area.place_key(), face.confidence.place_key()];
            assert(key@ =~= face_size_key(face));
            places.push(i);
            keys.push(key);
        }
        proof {
            assert forall|j: usize| j < i + 1 && face_counts(faces@[j as int], min_side) implies
                #[trigger] places@.contains(j) by {
                if j < i {
                    assert(before.contains(j));
                    let k = choose|k: int| 0 <= k < before.len() && before[k] == j;
                    assert(places@[k] == j);
                } else {
                    assert(places@[before.len() as int] == j);
                }
            }
        }
        i += 1;
    }
    let ghost kv = rank::key_views(keys@);
    match rank::last_maximum(&keys) {
        None => {
            proof {
                assert forall|j: int| 0 <= j < faces@.len() implies !face_counts(
                    #[trigger] faces@[j],
                    min_side,
                ) by {
                    if face_counts(faces@[j], min_side) {
                        assert(places@.contains(j as usize));
                    }
                }
            }
            None
        },
        Some(best) => {
            let at = places[best];
            proof {
                assert(kv[best as int] == keys@[best as int]@);
                assert forall|j: int|
                    0 <= j < faces@.len() && face_counts(#[trigger] faces@[j], min_side) implies !rank::lex_lt(
                    face_size_key(faces@[at as int]),
                    face_size_key(faces@[j]),
                ) by {
                    assert(places@.contains(j as usize));
                    let k = choose|k: int| 0 <= k < places@.len() && places@[k] == j as usize;
                    assert(kv[k] == keys@[k]@);
                    assert(!rank::lex_lt(kv[best as int], kv[k]));
                }
                assert forall|j: int|
                    at < j < faces@.len() && face_counts(#[trigger] faces@[j], min_side) implies rank::lex_lt(
                    face_size_key(faces@[j]),
                    face_size_key(faces@[at as int]),
                ) by {
                    assert(places@.contains(j as usize));
                    let k = choose|k: int| 0 <= k < places@.len() && places@[k] == j as usize;
                    if k <= best {
                        if k < best {
                            assert(places@[k] < places@[best as int]);
                        }
                        assert(false);
                    }
                    assert(kv[k] == keys@[k]@);
                    assert(rank::lex_lt(kv[k], kv[best as int]));
                }
            }
            Some(at)
        },
    }
}

} // verus!
