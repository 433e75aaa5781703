//! Which sources are scanned, and in which order they are gone through.
use crate::config::SourceConfig;
use crate::digest;
use crate::laws::order;
use crate::orchestration;
use crate::orchestration::{ConfigReloadState, ScannedSource, SourceCounts};
use crate::rank;
use vstd::prelude::*;

verus! {

/// A source is scanned where that is asked for; where a locked thread of it is hungry or it is due, a
/// local directory is left to the background, and another source is scanned unless it is only due and
/// may rest. All else is skipped.
pub proof fn sources_are_scanned_where_they_must_be(
    force: bool,
    lock_hungry: bool,
    scan_due: bool,
    local_directory: bool,
    can_rest: bool,
)
    ensures
        ({
            let r = orchestration::source_scan_of(
                force,
                lock_hungry,
                scan_due,
                local_directory,
                can_rest,
            );
            &&& r is Scan <==> force || (!local_directory && (lock_hungry || (scan_due && !can_rest)))
            &&& r is Defer <==> !force && local_directory && (lock_hungry || scan_due)
            &&& r is Skip <==> !force && !lock_hungry && (!scan_due || (!local_directory && can_rest))
        }),
{
}

/// A source may be gone through before another: a local directory before all others, then the one with
/// fewer streams, where one whose scan failed counts as having the most; then by name.
pub open spec fn may_be_harvested_before(a: ScannedSource, b: ScannedSource) -> bool {
    let x: int = match a.streams {
        Some(n) => n as int,
        None => usize::MAX as int,
    };
    let y: int = match b.streams {
        Some(n) => n as int,
        None => usize::MAX as int,
    };
    &&& b.local_directory ==> a.local_directory
    &&& a.local_directory == b.local_directory ==> x <= y
    &&& a.local_directory == b.local_directory && x == y ==> a.source_key@ == b.source_key@
        || order::text_before(a.source_key@, b.source_key@)
}

/// Sources are gone through in that order, each once.
pub proof fn small_sources_are_harvested_first(
    sources: Seq<ScannedSource>,
    turns: Seq<usize>,
    i: int,
    j: int,
)
    requires
        rank::is_ranking(turns, orchestration::scanned_keys(sources)),
        0 <= i < j < turns.len(),
    ensures
        may_be_harvested_before(sources[turns[i] as int], sources[turns[j] as int]),
        turns[i] != turns[j],
{
    let keys = orchestration::scanned_keys(sources);
    rank::lemma_ranking_distinct(turns, keys, i, j);
    assert(rank::precedes(keys, turns[i] as int, turns[j] as int));
    let (a, b) = (sources[turns[i] as int], sources[turns[j] as int]);
    let (x, y) = (orchestration::scanned_key(a), orchestration::scanned_key(b));
    assert(keys[turns[i] as int] == x && keys[turns[j] as int] == y);
    rank::lemma_lex_order(x, y, x);
    if x[0] != y[0] {
        order::keys_are_compared_from_the_front(x, y, 0);
    } else if x[1] != y[1] {
        order::keys_are_compared_from_the_front(x, y, 1);
    } else {
        let front = seq![x[0], x[1]];
        assert(x =~= front + rank::text_key(a.source_key@));
        assert(y =~= front + rank::text_key(b.source_key@));
        order::common_beginnings_do_not_matter(
            front,
            rank::text_key(a.source_key@),
            rank::text_key(b.source_key@),
        );
        order::texts_are_ordered_as_in_a_dictionary(a.source_key@, b.source_key@);
    }
}

/// The counts of sources add up, each with its own kind.
pub proof fn counts_add_up(counts: Seq<SourceCounts>, more: SourceCounts)
    ensures
        orchestration::summed(Seq::empty()) == (0int, 0int, 0int),
        orchestration::summed(counts.push(more)).0 == orchestration::summed(counts).0
            + more.active_streams,
        orchestration::summed(counts.push(more)).1 == orchestration::summed(counts).1
            + more.blocked_streams,
        orchestration::summed(counts.push(more)).2 == orchestration::summed(counts).2 + more.cached_items,
{
    assert(counts.push(more).drop_last() =~= counts);
}

/// A source is found at its first place, or behind the last one where it is not there.
pub proof fn sources_are_found_at_their_first_place(sources: Seq<SourceConfig>, key: Seq<char>, at: int)
    requires
        0 <= at <= sources.len(),
        at < sources.len() ==> sources[at].upstream.key() == key,
        forall|i: int| 0 <= i < at ==> (#[trigger] sources[i]).upstream.key() != key,
    ensures
        orchestration::source_place(sources, key) == at,
    decreases at,
{
    if at > 0 {
        assert(sources[0].upstream.key() != key);
        let rest = sources.skip(1);
        assert forall|i: int| 0 <= i < at - 1 implies (#[trigger] rest[i]).upstream.key() != key by {
            assert(sources[i + 1].upstream.key() != key);
        }
        sources_are_found_at_their_first_place(rest, key, at - 1);
    }
}

/// Settings are read where their text is not the one in force. That they are refused is said unless they
/// are those that were refused last.
pub proof fn changed_settings_are_read_and_refusals_said(
    state: ConfigReloadState,
    raw: Seq<u8>,
    refused: Seq<char>,
)
    ensures
        state.found_in(raw) is None <==> state.live_digest@ == digest::text_digest(raw),
        state.found_in(raw) is Some ==> state.found_in(raw) == Some(digest::text_digest(raw)),
        state.warned_rejected_digest is None ==> state.warns(refused),
        state.warned_rejected_digest is Some ==> (state.warns(refused)
            <==> state.warned_rejected_digest->0@ != refused),
{
}

} // verus!
