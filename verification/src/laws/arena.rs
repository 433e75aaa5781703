//! The board, the routes of votes, and the search for the next pair.
use crate::arena;
use crate::arena::{
    BoardEntry, LockExhaustionPolicy, Presence, SearchAction, SearchEvent, SearchState, VoteRoute,
};
use crate::duel::VoteError;
use crate::laws::order;
use crate::model::ArenaHandle;
use crate::rank;
use vstd::prelude::*;

verus! {

/// One line may stand before another: it has the larger pull; at equal pulls the larger focus; at equal
/// focus the larger score; and where all are equal its name comes first.
pub open spec fn may_stand_before(a: BoardEntry, b: BoardEntry) -> bool {
    &&& !a.sampling_pull.below(b.sampling_pull)
    &&& a.sampling_pull == b.sampling_pull ==> !a.session_focus.below(b.session_focus)
    &&& a.sampling_pull == b.sampling_pull && a.session_focus == b.session_focus
        ==> !a.global_score.below(b.global_score)
    &&& a.sampling_pull == b.sampling_pull && a.session_focus == b.session_focus && a.global_score
        == b.global_score ==> a.asset_id@ == b.asset_id@ || order::text_before(
        a.asset_id@,
        b.asset_id@,
    )
}

/// The board lists images from the largest pull on, whatever else is said of them; at equal pulls the
/// larger focus decides, then the larger score, then the name.
pub proof fn the_board_is_in_order(entries: Seq<BoardEntry>, order: Seq<usize>, i: int, j: int)
    requires
        rank::is_ranking(order, arena::board_keys(entries)),
        0 <= i < j < order.len(),
    ensures
        may_stand_before(arena::reordered(entries, order)[i], arena::reordered(entries, order)[j]),
        order[i] != order[j],
{
    let keys = arena::board_keys(entries);
    let (a, b) = (entries[order[i] as int], entries[order[j] as int]);
    rank::lemma_ranking_distinct(order, keys, i, j);
    assert(rank::precedes(keys, order[i] as int, order[j] as int));
    let (x, y) = (arena::board_key(a), arena::board_key(b));
    assert(keys[order[i] as int] == x && keys[order[j] as int] == y);
    rank::lemma_lex_order(x, y, x);
    order::numbers_are_placed_by_size(a.sampling_pull, b.sampling_pull);
    order::numbers_are_placed_by_size(a.session_focus, b.session_focus);
    order::numbers_are_placed_by_size(a.global_score, b.global_score);
    order::numbers_are_placed_by_size(b.sampling_pull, a.sampling_pull);
    order::numbers_are_placed_by_size(b.session_focus, a.session_focus);
    order::numbers_are_placed_by_size(b.global_score, a.global_score);
    assert(x[0] == -a.sampling_pull.place() && y[0] == -b.sampling_pull.place());
    assert(x[1] == -a.session_focus.place() && y[1] == -b.session_focus.place());
    assert(x[2] == -a.global_score.place() && y[2] == -b.global_score.place());
    if x[0] != y[0] {
        order::keys_are_compared_from_the_front(x, y, 0);
    } else if x[1] != y[1] {
        order::keys_are_compared_from_the_front(x, y, 1);
    } else if x[2] != y[2] {
        order::keys_are_compared_from_the_front(x, y, 2);
    } else {
        let front = seq![x[0], x[1], x[2]];
        assert(x =~= front + rank::text_key(a.asset_id@));
        assert(y =~= front + rank::text_key(b.asset_id@));
        order::common_beginnings_do_not_matter(
            front,
            rank::text_key(a.asset_id@),
            rank::text_key(b.asset_id@),
        );
        order::texts_are_ordered_as_in_a_dictionary(a.asset_id@, b.asset_id@);
    }
}

/// A vote between two images of the collection is a local duel and can only be won by an image of the
/// collection; one with a single outside image is a remote duel, on whichever side that stands and
/// whoever is named; two outside images do not meet.
pub proof fn votes_go_where_their_images_are(left: ArenaHandle, right: ArenaHandle, winner: ArenaHandle)
    ensures
        ({
            let route = arena::vote_route_of(left, right, winner);
            let other_way = arena::vote_route_of(right, left, winner);
            &&& left is Local && right is Local && winner is Local ==> route == Ok::<
                VoteRoute,
                VoteError,
            >(
                VoteRoute::Local {
                    left_id: left->Local_0,
                    right_id: right->Local_0,
                    winner_id: winner->Local_0,
                },
            )
            &&& left is Local && right is Local && winner is Remote ==> route == Err::<
                VoteRoute,
                VoteError,
            >(VoteError::RemoteWinner)
            &&& left is Local && right is Remote ==> route == other_way && route == Ok::<
                VoteRoute,
                VoteError,
            >(VoteRoute::Remote { local_id: left->Local_0, remote_id: right->Remote_0 })
            &&& left is Remote && right is Remote ==> route == Err::<VoteRoute, VoteError>(
                VoteError::RemoteDuel,
            )
        }),
{
}

/// An image is there only where it is known and its file exists; one of the collection that is hidden is
/// not, while an outside one cannot be hidden so.
pub proof fn images_live_while_their_files_do(handle: ArenaHandle, presence: Presence)
    ensures
        !arena::handle_lives(handle, None),
        !presence.file_exists ==> !arena::handle_lives(handle, Some(presence)),
        presence.file_exists && !presence.hidden ==> arena::handle_lives(handle, Some(presence)),
        handle is Local && presence.hidden ==> !arena::handle_lives(handle, Some(presence)),
        handle is Remote && presence.file_exists ==> arena::handle_lives(handle, Some(presence)),
{
}

/// Whatever a draw finds is returned at once. An empty draw outside a lock ends the search, and so does
/// one inside a lock for a search that only looks ahead.
pub proof fn draws_decide_the_search(state: SearchState, policy: LockExhaustionPolicy)
    requires
        state is Drawing || state is DrawingInLock,
    ensures
        arena::searched(state, SearchEvent::Drew { found: true }, policy) == (
            SearchState::Finished,
            SearchAction::ReturnDrawn,
        ),
        state is Drawing || policy == LockExhaustionPolicy::PreserveAndStop ==> arena::searched(
            state,
            SearchEvent::Drew { found: false },
            policy,
        ) == (SearchState::Finished, SearchAction::ReturnNothing),
{
}

/// A search begins with a look. Where no thread is locked, it draws outside a lock and that draw is
/// final.
pub proof fn an_unlocked_arena_draws_once(found: bool, policy: LockExhaustionPolicy)
    ensures
        arena::search_after(Seq::empty(), policy).1 == SearchAction::Look,
        ({
            let looked = seq![SearchEvent::Looked { locked: false }];
            let drew = looked.push(SearchEvent::Drew { found });
            &&& arena::search_after(looked, policy).1 == SearchAction::Draw
            &&& arena::search_after(drew, policy) == (
                SearchState::Finished,
                if found {
                    SearchAction::ReturnDrawn
                } else {
                    SearchAction::ReturnNothing
                },
            )
        }),
{
    reveal_with_fuel(arena::search_after, 4);
    let looked = seq![SearchEvent::Looked { locked: false }];
    let drew = looked.push(SearchEvent::Drew { found });
    assert(looked.drop_last() =~= Seq::<SearchEvent>::empty());
    assert(drew.drop_last() =~= looked);
}

/// Where a lock is released because its thread has nothing left, the search looks once more and, if no
/// thread is locked any more, draws outside a lock; a second lock that runs dry ends the search without
/// a pair.
pub proof fn a_released_lock_gives_one_more_try(again: bool)
    ensures
        ({
            let policy = LockExhaustionPolicy::ClearAndRetry;
            let released = seq![
                SearchEvent::Looked { locked: true },
                SearchEvent::Drew { found: false },
                SearchEvent::Judged { holds: false },
            ];
            let unlocked = released.push(SearchEvent::Looked { locked: false });
            let locked = released.push(SearchEvent::Looked { locked: true });
            let empty = locked.push(SearchEvent::Drew { found: false });
            let given_up = empty.push(SearchEvent::Judged { holds: false });
            let looked = given_up.push(SearchEvent::Looked { locked: again });
            &&& arena::search_after(released, policy).1 == SearchAction::ClearLockAndLook
            &&& arena::search_after(unlocked, policy).1 == SearchAction::Draw
            &&& arena::search_after(locked, policy).1 == SearchAction::DrawInLock
            &&& arena::search_after(given_up, policy).1 == SearchAction::ClearLockAndLook
            &&& arena::search_after(looked, policy).1 == SearchAction::ReturnNothing
        }),
{
    reveal_with_fuel(arena::search_after, 8);
    let released = seq![
        SearchEvent::Looked { locked: true },
        SearchEvent::Drew { found: false },
        SearchEvent::Judged { holds: false },
    ];
    let unlocked = released.push(SearchEvent::Looked { locked: false });
    let locked = released.push(SearchEvent::Looked { locked: true });
    let empty = locked.push(SearchEvent::Drew { found: false });
    let given_up = empty.push(SearchEvent::Judged { holds: false });
    let looked = given_up.push(SearchEvent::Looked { locked: again });
    assert(released.drop_last().drop_last().drop_last() =~= Seq::<SearchEvent>::empty());
    assert(unlocked.drop_last() =~= released);
    assert(locked.drop_last() =~= released);
    assert(empty.drop_last() =~= locked);
    assert(given_up.drop_last() =~= empty);
    assert(looked.drop_last() =~= given_up);
}

/// A search that may release the lock judges it after the first empty draw, refills a thread that should
/// hold it, draws again, and only then lets go.
pub proof fn locks_are_judged_then_refilled(left: u8)
    ensures
        ({
            let policy = LockExhaustionPolicy::ClearAndRetry;
            let first = SearchState::DrawingInLock { left, refilled: false };
            let second = SearchState::DrawingInLock { left, refilled: true };
            let empty = SearchEvent::Drew { found: false };
            &&& arena::searched(first, empty, policy) == (
                SearchState::Judging { left },
                SearchAction::JudgeLock,
            )
            &&& arena::searched(
                SearchState::Judging { left },
                SearchEvent::Judged { holds: true },
                policy,
            ) == (SearchState::Refilling { left }, SearchAction::RefillLock)
            &&& arena::searched(
                SearchState::Judging { left },
                SearchEvent::Judged { holds: false },
                policy,
            ) == (SearchState::Looking { left }, SearchAction::ClearLockAndLook)
            &&& arena::searched(SearchState::Refilling { left }, SearchEvent::Refilled, policy) == (
                second,
                SearchAction::DrawInLock,
            )
            &&& arena::searched(second, empty, policy) == (
                SearchState::Looking { left },
                SearchAction::ClearLockAndLook,
            )
        }),
{
}

} // verus!
