//! What the actions of the arena do: where a vote goes, what hiding, vetoing, locking and hearting
//! ask for, how the next pair is searched for, and how the board is ordered.
use crate::arena_scope;
use crate::arena_scope::{
    ArenaScope, ArenaScopeAction, ArenaScopeTransition, PipelineDisposition, ThreadKey,
};
use crate::arena_session::ArenaPairRef;
use crate::duel::VoteError;
use crate::laws;
use crate::model::{ArenaHandle, AssetId, CorpusId, RemoteItemId, SessionId};
use crate::pairing;
use crate::pool;
use crate::rank;
use crate::remote_pick;
use crate::remote_pick::RemoteCandidate;
use crate::runtime;
use crate::runtime::RedirectTarget;
use crate::scalar::Scalar;
use crate::text;
use vstd::prelude::*;

verus! {

/// What is known of the collection when the application has started.
#[derive(Debug, Clone, Copy, PartialEq, Eq, Structural)]
pub struct StartupSummary {
    pub corpus_id: CorpusId,
    pub session_id: SessionId,
    pub visible_assets: usize,
    pub embedded_assets: usize,
}

/// Who decides a vote.
#[derive(Debug)]
pub enum VoteRoute {
    /// A duel of two images of the collection.
    Local { left_id: AssetId, right_id: AssetId, winner_id: AssetId },
    /// A duel of an image of the collection and an outside image.
    Remote { local_id: AssetId, remote_id: RemoteItemId },
}

/// Who decides a vote between `left` and `right`.
pub open spec fn vote_route_of(left: ArenaHandle, right: ArenaHandle, winner: ArenaHandle) -> Result<
    VoteRoute,
    VoteError,
> {
    match (left, right) {
        (ArenaHandle::Local(left_id), ArenaHandle::Local(right_id)) => match winner {
            ArenaHandle::Local(winner_id) => Ok(VoteRoute::Local { left_id, right_id, winner_id }),
            ArenaHandle::Remote(_) => Err(VoteError::RemoteWinner),
        },
        (ArenaHandle::Local(local_id), ArenaHandle::Remote(remote_id)) => Ok(
            VoteRoute::Remote { local_id, remote_id },
        ),
        (ArenaHandle::Remote(remote_id), ArenaHandle::Local(local_id)) => Ok(
            VoteRoute::Remote { local_id, remote_id },
        ),
        (ArenaHandle::Remote(_), ArenaHandle::Remote(_)) => Err(VoteError::RemoteDuel),
    }
}

/// Who decides a vote between `left` and `right`.
pub fn vote_route(left: &ArenaHandle, right: &ArenaHandle, winner: &ArenaHandle) -> (r: Result<
    VoteRoute,
    VoteError,
>)
    ensures
        r == vote_route_of(*left, *right, *winner),
{
    match (left, right) {
        (ArenaHandle::Local(left_id), ArenaHandle::Local(right_id)) => match winner {
            ArenaHandle::Local(winner_id) => Ok(
                VoteRoute::Local {
                    left_id: left_id.clone(),
                    right_id: right_id.clone(),
                    winner_id: winner_id.clone(),
                },
            ),
            ArenaHandle::Remote(_) => Err(VoteError::RemoteWinner),
        },
        (ArenaHandle::Local(local_id), ArenaHandle::Remote(remote_id)) => Ok(
            VoteRoute::Remote { local_id: local_id.clone(), remote_id: *remote_id },
        ),
        (ArenaHandle::Remote(remote_id), ArenaHandle::Local(local_id)) => Ok(
            VoteRoute::Remote { local_id: local_id.clone(), remote_id: *remote_id },
        ),
        (ArenaHandle::Remote(_), ArenaHandle::Remote(_)) => Err(VoteError::RemoteDuel),
    }
}

/// What hiding one side of the pair asks for.
#[derive(Debug)]
pub enum HideEffect {
    /// An image of the collection is hidden or shown again.
    Asset { asset_id: AssetId, hidden: bool },
    /// Outside images are turned down against the image that stays, in this order.
    Remote { rejected: Vec<RemoteItemId>, anchor: Option<AssetId>, purge_duplicates: bool },
}

fn copied(asset_id: Option<&AssetId>) -> (r: Option<AssetId>)
    ensures
        r == match asset_id {
            None => None,
            Some(id) => Some(*id),
        },
{
    match asset_id {
        None => None,
        Some(id) => Some(id.clone()),
    }
}

/// What hiding one side of the pair asks for: an outside image goes together with those that look
/// like it, and one that is shown again is not turned down.
pub fn hide_effect(
    handle: &ArenaHandle,
    hidden: bool,
    cluster_ids: &Vec<RemoteItemId>,
    pair_left: &ArenaHandle,
    pair_right: &ArenaHandle,
) -> (r: HideEffect)
    ensures
        match (*handle, r) {
            (ArenaHandle::Local(id), HideEffect::Asset { asset_id, hidden: set }) => asset_id == id
                && set == hidden,
            (ArenaHandle::Remote(id), HideEffect::Remote { rejected, anchor, purge_duplicates }) => {
                &&& rejected@ == if hidden {
                    seq![id] + cluster_ids@
                } else {
                    Seq::empty()
                }
                &&& anchor == runtime::spec_surviving_local_anchor(*handle, *pair_left, *pair_right)
                &&& purge_duplicates == hidden
            },
            _ => false,
        },
{
    match handle {
        ArenaHandle::Local(asset_id) => HideEffect::Asset { asset_id: asset_id.clone(), hidden },
        ArenaHandle::Remote(item_id) => {
            let mut rejected: Vec<RemoteItemId> = Vec::new();
            if hidden {
                rejected.push(*item_id);
                let mut i: usize = 0;
                while i < cluster_ids.len()
                    invariant
                        i <= cluster_ids.len(),
                        rejected@ == seq![*item_id] + cluster_ids@.take(i as int),
                    decreases cluster_ids.len() - i,
                {
                    rejected.push(cluster_ids[i]);
                    proof {
                        assert(cluster_ids@.take(i + 1) =~= cluster_ids@.take(i as int).push(
                            cluster_ids@[i as int],
                        ));
                    }
                    i += 1;
                }
                assert(cluster_ids@.take(i as int) =~= cluster_ids@);
            }
            HideEffect::Remote {
                rejected,
                anchor: copied(runtime::surviving_local_anchor(handle, pair_left, pair_right)),
                purge_duplicates: hidden,
            }
        },
    }
}

/// Which page follows an action.
#[derive(Debug)]
pub enum FollowUp {
    /// The next pair, whatever it holds.
    NextPair,
    /// The next pair for this image, if it is still there.
    NextPairFor(Option<AssetId>),
    /// The pair that is already current.
    CurrentPair,
    Page(RedirectTarget),
}

/// Which page follows hiding a side of the pair.
pub fn after_hiding(handle: &ArenaHandle, pair_left: &ArenaHandle, pair_right: &ArenaHandle) -> (r:
    FollowUp)
    ensures
        r == match *handle {
            ArenaHandle::Local(_) => FollowUp::NextPair,
            ArenaHandle::Remote(_) => FollowUp::NextPairFor(
                runtime::spec_surviving_local_anchor(*handle, *pair_left, *pair_right),
            ),
        },
{
    match handle {
        ArenaHandle::Local(_) => FollowUp::NextPair,
        ArenaHandle::Remote(_) => FollowUp::NextPairFor(
            copied(runtime::surviving_local_anchor(handle, pair_left, pair_right)),
        ),
    }
}

/// Which page follows hiding an image of the collection: the arena where it is not there.
pub fn after_hiding_asset(present: bool) -> (r: FollowUp)
    ensures
        r == if present {
            FollowUp::NextPair
        } else {
            FollowUp::Page(RedirectTarget::ArenaRoot)
        },
{
    if present {
        FollowUp::NextPair
    } else {
        FollowUp::Page(RedirectTarget::ArenaRoot)
    }
}

/// An outside image that is not known.
#[derive(Debug, Clone, Copy, PartialEq, Eq, Structural)]
pub struct MissingRemoteItem(pub RemoteItemId);

impl MissingRemoteItem {
    /// What is said of the missing image.
    pub fn message(&self) -> (r: String)
        ensures
            r@ == "missing remote item "@ + text::signed_decimal(self.0.0 as int),
    {
        let mut r = "missing remote item ".to_owned();
        text::push_signed_decimal(&mut r, self.0.0);
        r
    }
}

/// What turning down a whole thread asks for.
#[derive(Debug)]
pub enum VetoEffect {
    /// Only threads of outside sources can be turned down.
    Ignored,
    /// The thread of the image is blocked and the scope changes.
    Blocked { item_id: RemoteItemId, anchor: Option<AssetId>, transition: ArenaScopeTransition },
}

impl VetoEffect {
    /// What becomes of the turns that are already prepared.
    pub fn pipeline(&self) -> (r: PipelineDisposition)
        ensures
            r == match *self {
                VetoEffect::Ignored => PipelineDisposition::Preserve,
                VetoEffect::Blocked { transition, .. } => transition.pipeline,
            },
    {
        match self {
            VetoEffect::Ignored => PipelineDisposition::Preserve,
            VetoEffect::Blocked { transition, .. } => transition.pipeline(),
        }
    }
}

/// What turning down the thread of one side of the pair asks for. `item` is the thread of the
/// outside image, if the image is known.
pub fn veto_effect(
    handle: &ArenaHandle,
    pair_left: &ArenaHandle,
    pair_right: &ArenaHandle,
    item: Option<ThreadKey>,
    scope: &ArenaScope,
) -> (r: Result<VetoEffect, MissingRemoteItem>)
    ensures
        r == match (*handle, item) {
            (ArenaHandle::Local(_), _) => Ok(VetoEffect::Ignored),
            (ArenaHandle::Remote(item_id), None) => Err(MissingRemoteItem(item_id)),
            (ArenaHandle::Remote(item_id), Some(thread)) => Ok(
                VetoEffect::Blocked {
                    item_id,
                    anchor: runtime::spec_surviving_local_anchor(*handle, *pair_left, *pair_right),
                    transition: arena_scope::reduced(*scope, ArenaScopeAction::Veto(thread)),
                },
            ),
        },
{
    match handle {
        ArenaHandle::Local(_) => Ok(VetoEffect::Ignored),
        ArenaHandle::Remote(item_id) => match item {
            None => Err(MissingRemoteItem(*item_id)),
            Some(thread) => Ok(
                VetoEffect::Blocked {
                    item_id: *item_id,
                    anchor: copied(runtime::surviving_local_anchor(handle, pair_left, pair_right)),
                    transition: scope.reduce(ArenaScopeAction::Veto(thread)),
                },
            ),
        },
    }
}

/// Which page follows turning down a thread.
pub fn after_veto(effect: &VetoEffect) -> (r: FollowUp)
    ensures
        r == match *effect {
            VetoEffect::Ignored => FollowUp::CurrentPair,
            VetoEffect::Blocked { anchor, .. } => FollowUp::NextPairFor(anchor),
        },
{
    match effect {
        VetoEffect::Ignored => FollowUp::CurrentPair,
        VetoEffect::Blocked { anchor, .. } => FollowUp::NextPairFor(
            match anchor {
                None => None,
                Some(id) => Some(id.clone()),
            },
        ),
    }
}

/// Locks the scope to the thread of an outside image, or unlocks it. `item` is the thread of the
/// image, if the image is known; only locking asks for it.
pub fn set_external_subsource_lock(
    item_id: RemoteItemId,
    active: bool,
    item: Option<ThreadKey>,
    scope: &ArenaScope,
) -> (r: Result<ArenaScopeTransition, MissingRemoteItem>)
    ensures
        r == if !active {
            Ok(arena_scope::reduced(*scope, ArenaScopeAction::Unlock))
        } else {
            match item {
                None => Err(MissingRemoteItem(item_id)),
                Some(thread) => Ok(arena_scope::reduced(*scope, ArenaScopeAction::Lock(thread))),
            }
        },
{
    if !active {
        return Ok(scope.reduce(ArenaScopeAction::Unlock));
    }
    match item {
        None => Err(MissingRemoteItem(item_id)),
        Some(thread) => Ok(scope.reduce(ArenaScopeAction::Lock(thread))),
    }
}

/// Which outside image a lock is for, and the page that follows: the same pair.
pub fn lock_target(handle: &ArenaHandle, pair_left: &ArenaHandle, pair_right: &ArenaHandle) -> (r: (
    Option<RemoteItemId>,
    RedirectTarget,
))
    ensures
        r.0 == match *handle {
            ArenaHandle::Remote(item_id) => Some(item_id),
            ArenaHandle::Local(_) => None,
        },
        r.1 == (RedirectTarget::ArenaPair { left: *pair_left, right: *pair_right }),
{
    let item_id = match handle {
        ArenaHandle::Remote(item_id) => Some(*item_id),
        ArenaHandle::Local(_) => None,
    };
    (item_id, RedirectTarget::ArenaPair { left: pair_left.clone(), right: pair_right.clone() })
}

/// What hearting a side of the pair asks for.
#[derive(Debug)]
pub enum HeartEffect {
    Asset(AssetId),
    /// The outside image is taken into the collection and hearted there.
    Enshrine(RemoteItemId),
    Nothing,
}

/// What hearting a side of the pair asks for, and the page that follows.
pub fn heart_effect(handle: &ArenaHandle, active: bool) -> (r: (HeartEffect, FollowUp))
    ensures
        r == match *handle {
            ArenaHandle::Local(asset_id) => (
                HeartEffect::Asset(asset_id),
                FollowUp::Page(RedirectTarget::ArenaRoot),
            ),
            ArenaHandle::Remote(item_id) => (
                if active {
                    HeartEffect::Enshrine(item_id)
                } else {
                    HeartEffect::Nothing
                },
                FollowUp::CurrentPair,
            ),
        },
{
    match handle {
        ArenaHandle::Local(asset_id) => (
            HeartEffect::Asset(asset_id.clone()),
            FollowUp::Page(RedirectTarget::ArenaRoot),
        ),
        ArenaHandle::Remote(item_id) => (
            if active {
                HeartEffect::Enshrine(*item_id)
            } else {
                HeartEffect::Nothing
            },
            FollowUp::CurrentPair,
        ),
    }
}

/// The page of a pair, or the arena where there is none.
pub fn redirect_target_for_pair(pair: Option<ArenaPairRef>) -> (r: RedirectTarget)
    ensures
        r == match pair {
            Some(pair) => RedirectTarget::ArenaPair { left: pair.left, right: pair.right },
            None => RedirectTarget::ArenaRoot,
        },
{
    match pair {
        Some(pair) => RedirectTarget::ArenaPair { left: pair.left, right: pair.right },
        None => RedirectTarget::ArenaRoot,
    }
}

/// A pair that can be shown.
#[derive(Debug)]
pub struct ArenaPairView {
    pub pair: ArenaPairRef,
    /// The outside image whose look-alikes are shown beside it.
    pub cluster_of: Option<RemoteItemId>,
}

/// The pair of two images that are both there and differ. Look-alikes are shown of an outside image
/// on the right.
pub fn arena_pair(left: Option<&ArenaHandle>, right: Option<&ArenaHandle>) -> (r: Option<ArenaPairView>)
    ensures
        r == match (left, right) {
            (Some(l), Some(r)) => if l@ == r@ {
                None
            } else {
                Some(
                    ArenaPairView {
                        pair: ArenaPairRef { left: *l, right: *r },
                        cluster_of: match *r {
                            ArenaHandle::Remote(item_id) => Some(item_id),
                            ArenaHandle::Local(_) => None,
                        },
                    },
                )
            },
            _ => None,
        },
{
    match (left, right) {
        (Some(left), Some(right)) => {
            if left.same(right) {
                return None;
            }
            let cluster_of = match right {
                ArenaHandle::Remote(item_id) => Some(*item_id),
                ArenaHandle::Local(_) => None,
            };
            Some(ArenaPairView { pair: ArenaPairRef::forge(left.clone(), right.clone()), cluster_of })
        },
        _ => None,
    }
}

/// What is known of an image of the collection or of an outside source.
#[derive(Debug, Clone, Copy, PartialEq, Eq, Structural)]
pub struct Presence {
    pub hidden: bool,
    pub file_exists: bool,
}

/// Whether one side of a pair is still there: it is known, its file is there and, where it is an
/// image of the collection, it is not hidden. Outside images that are turned down are not known.
pub open spec fn handle_lives(handle: ArenaHandle, known: Option<Presence>) -> bool {
    match (known, handle) {
        (None, _) => false,
        (Some(presence), ArenaHandle::Local(_)) => presence.file_exists && !presence.hidden,
        (Some(presence), ArenaHandle::Remote(_)) => presence.file_exists,
    }
}

/// Whether one side of a pair is still there.
pub fn arena_handle_is_live(handle: &ArenaHandle, known: Option<Presence>) -> (r: bool)
    ensures
        r == handle_lives(*handle, known),
{
    match known {
        None => false,
        Some(presence) => match handle {
            ArenaHandle::Local(_) => presence.file_exists && !presence.hidden,
            ArenaHandle::Remote(_) => presence.file_exists,
        },
    }
}

/// The side of a pair that can be shown: one that is still there and that, where it is an outside
/// image, has been described.
pub fn load_arena_card<'a>(handle: &'a ArenaHandle, known: Option<Presence>, described: bool) -> (r:
    Option<&'a ArenaHandle>)
    ensures
        r == if handle_lives(*handle, known) && (handle is Remote ==> described) {
            Some(handle)
        } else {
            None
        },
{
    let shown = match handle {
        ArenaHandle::Local(_) => true,
        ArenaHandle::Remote(_) => described,
    };
    if arena_handle_is_live(handle, known) && shown {
        Some(handle)
    } else {
        None
    }
}

/// What is said of an image that is not in the collection.
pub fn missing_asset_message(asset_id: &AssetId, corpus_id: CorpusId) -> (r: String)
    ensures
        r@ == "asset "@ + asset_id@ + " not found in corpus "@ + text::signed_decimal(
            corpus_id.0 as int,
        ),
{
    let mut r = "asset ".to_owned();
    r.append(asset_id.0.as_str());
    r.append(" not found in corpus ");
    text::push_signed_decimal(&mut r, corpus_id.0);
    r
}

/// What is done where a locked thread has nothing left to show. The first is that of a search whose
/// pair is shown, the second that of one which only looks ahead.
#[derive(Debug, Clone, Copy, PartialEq, Eq, Structural)]
pub enum LockExhaustionPolicy {
    ClearAndRetry,
    PreserveAndStop,
}

/// How far the search for the next pair has come; `left` says how many looks are left.
#[derive(Debug, Clone, Copy, PartialEq, Eq, Structural)]
pub enum SearchState {
    Looking { left: u8 },
    DrawingInLock { left: u8, refilled: bool },
    /// Nothing was drawn in the lock; whether it is worth holding is being judged.
    Judging { left: u8 },
    Refilling { left: u8 },
    Drawing,
    Finished,
}

/// What has become known to the search.
#[derive(Debug, Clone, Copy, PartialEq, Eq, Structural)]
pub enum SearchEvent {
    /// Whether the session is locked to a thread.
    Looked { locked: bool },
    /// Whether a draw gave a pair.
    Drew { found: bool },
    /// Whether the locked thread should hold its lock.
    Judged { holds: bool },
    /// The locked thread was refilled, as far as it went.
    Refilled,
}

/// What the search asks for next.
#[derive(Debug, Clone, Copy, PartialEq, Eq, Structural)]
pub enum SearchAction {
    /// Look whether the session is locked.
    Look,
    DrawInLock,
    /// Judge whether the locked thread should hold its lock.
    JudgeLock,
    /// Make images of the locked thread ready.
    RefillLock,
    Draw,
    /// Release the lock, then look again.
    ClearLockAndLook,
    ReturnDrawn,
    ReturnNothing,
}

/// How a search begins: with two looks left.
pub open spec fn search_begun() -> (SearchState, SearchAction) {
    (SearchState::Looking { left: 2 }, SearchAction::Look)
}

/// The search with two looks left.
pub fn begin_search() -> (r: (SearchState, SearchAction))
    ensures
        r == search_begun(),
{
    (SearchState::Looking { left: 2 }, SearchAction::Look)
}

/// The next step of the search. A draw outside a lock is final. Where a draw inside one finds
/// nothing, the policy may end the search. Otherwise a thread that should hold its lock is refilled
/// once and drawn from again; what then still finds nothing releases the lock.
pub open spec fn searched(state: SearchState, event: SearchEvent, policy: LockExhaustionPolicy) -> (
    SearchState,
    SearchAction,
) {
    match (state, event) {
        (SearchState::Looking { left }, SearchEvent::Looked { locked }) => if left == 0 {
            (SearchState::Finished, SearchAction::ReturnNothing)
        } else if locked {
            (
                SearchState::DrawingInLock { left: (left - 1) as u8, refilled: false },
                SearchAction::DrawInLock,
            )
        } else {
            (SearchState::Drawing, SearchAction::Draw)
        },
        (SearchState::DrawingInLock { left, refilled }, SearchEvent::Drew { found }) => if found {
            (SearchState::Finished, SearchAction::ReturnDrawn)
        } else if policy == LockExhaustionPolicy::PreserveAndStop {
            (SearchState::Finished, SearchAction::ReturnNothing)
        } else if refilled {
            (SearchState::Looking { left }, SearchAction::ClearLockAndLook)
        } else {
            (SearchState::Judging { left }, SearchAction::JudgeLock)
        },
        (SearchState::Judging { left }, SearchEvent::Judged { holds }) => if holds {
            (SearchState::Refilling { left }, SearchAction::RefillLock)
        } else {
            (SearchState::Looking { left }, SearchAction::ClearLockAndLook)
        },
        (SearchState::Refilling { left }, SearchEvent::Refilled) => (
            SearchState::DrawingInLock { left, refilled: true },
            SearchAction::DrawInLock,
        ),
        (SearchState::Drawing, SearchEvent::Drew { found }) => (
            SearchState::Finished,
            if found {
                SearchAction::ReturnDrawn
            } else {
                SearchAction::ReturnNothing
            },
        ),
        _ => (SearchState::Finished, SearchAction::ReturnNothing),
    }
}

/// The next step of the search.
pub fn continue_search(state: SearchState, event: SearchEvent, policy: LockExhaustionPolicy) -> (r: (
    SearchState,
    SearchAction,
))
    ensures
        r == searched(state, event, policy),
{
    match (state, event) {
        (SearchState::Looking { left }, SearchEvent::Looked { locked }) => {
            if left == 0 {
                (SearchState::Finished, SearchAction::ReturnNothing)
            } else if locked {
                (
                    SearchState::DrawingInLock { left: left - 1, refilled: false },
                    SearchAction::DrawInLock,
                )
            } else {
                (SearchState::Drawing, SearchAction::Draw)
            }
        },
        (SearchState::DrawingInLock { left, refilled }, SearchEvent::Drew { found }) => {
            if found {
                (SearchState::Finished, SearchAction::ReturnDrawn)
            } else {
                match policy {
                    LockExhaustionPolicy::PreserveAndStop => (
                        SearchState::Finished,
                        SearchAction::ReturnNothing,
                    ),
                    LockExhaustionPolicy::ClearAndRetry => {
                        if refilled {
                            (SearchState::Looking { left }, SearchAction::ClearLockAndLook)
                        } else {
                            (SearchState::Judging { left }, SearchAction::JudgeLock)
                        }
                    },
                }
            }
        },
        (SearchState::Judging { left }, SearchEvent::Judged { holds }) => {
            if holds {
                (SearchState::Refilling { left }, SearchAction::RefillLock)
            } else {
                (SearchState::Looking { left }, SearchAction::ClearLockAndLook)
            }
        },
        (SearchState::Refilling { left }, SearchEvent::Refilled) => (
            SearchState::DrawingInLock { left, refilled: true },
            SearchAction::DrawInLock,
        ),
        (SearchState::Drawing, SearchEvent::Drew { found }) => (
            SearchState::Finished,
            if found {
                SearchAction::ReturnDrawn
            } else {
                SearchAction::ReturnNothing
            },
        ),
        _ => (SearchState::Finished, SearchAction::ReturnNothing),
    }
}

/// Where a search stands, and what it asks for, once all of `events` have become known to it.
pub open spec fn search_after(events: Seq<SearchEvent>, policy: LockExhaustionPolicy) -> (
    SearchState,
    SearchAction,
)
    decreases events.len(),
{
    if events.len() == 0 {
        search_begun()
    } else {
        searched(search_after(events.drop_last(), policy).0, events.last(), policy)
    }
}

/// How many steps a search can still take.
pub open spec fn search_steps(state: SearchState) -> int {
    match state {
        SearchState::Looking { left } => 5 * left + 2,
        SearchState::DrawingInLock { left, refilled } => 5 * left + if refilled {
            3int
        } else {
            6int
        },
        SearchState::Judging { left } => 5 * left + 5,
        SearchState::Refilling { left } => 5 * left + 4,
        SearchState::Drawing => 1,
        SearchState::Finished => 0,
    }
}

/// Every step brings the search closer to its end, whatever becomes known.
pub proof fn search_ends(state: SearchState, event: SearchEvent, policy: LockExhaustionPolicy)
    requires
        state != SearchState::Finished,
    ensures
        search_steps(searched(state, event, policy).0) < search_steps(state),
        search_steps(state) > 0,
        searched(state, event, policy).0 == SearchState::Finished <==> (searched(
            state,
            event,
            policy,
        ).1 == SearchAction::ReturnDrawn || searched(state, event, policy).1
            == SearchAction::ReturnNothing),
{
}

/// A search that only looks ahead never releases the lock.
pub proof fn looking_ahead_keeps_the_lock(events: Seq<SearchEvent>)
    ensures
        search_after(events, LockExhaustionPolicy::PreserveAndStop).1
            != SearchAction::ClearLockAndLook,
        !(search_after(events, LockExhaustionPolicy::PreserveAndStop).0 is Judging),
    decreases events.len(),
{
    if events.len() > 0 {
        looking_ahead_keeps_the_lock(events.drop_last());
    }
}

/// A lock is released only right after a draw in it found nothing and its thread was judged not to
/// be worth the lock, or right after the draw that followed a refill found nothing: a thread that
/// should hold its lock is never released before a refill was tried.
pub proof fn a_lock_worth_holding_is_refilled_before_its_release(
    events: Seq<SearchEvent>,
    policy: LockExhaustionPolicy,
)
    requires
        search_after(events, policy).1 == SearchAction::ClearLockAndLook,
    ensures
        policy == LockExhaustionPolicy::ClearAndRetry,
        events.len() >= 2,
        ({
            let last = events[events.len() - 1];
            let before = events[events.len() - 2];
            ||| last == (SearchEvent::Judged { holds: false }) && before == (SearchEvent::Drew {
                found: false,
            })
            ||| last == (SearchEvent::Drew { found: false }) && before == SearchEvent::Refilled
        }),
{
    reveal_with_fuel(search_after, 3);
}

/// Where a draw in the lock finds nothing and the thread should hold its lock, the search asks for a
/// refill and then for another draw in the same lock; it returns what that draw finds.
pub proof fn an_empty_draw_in_a_lock_worth_holding_is_retried(
    events: Seq<SearchEvent>,
    found: bool,
)
    requires
        search_after(events, LockExhaustionPolicy::ClearAndRetry).0 matches SearchState::DrawingInLock {
            refilled,
            ..
        } && !refilled,
    ensures
        ({
            let policy = LockExhaustionPolicy::ClearAndRetry;
            let drew = events.push(SearchEvent::Drew { found: false });
            let judged = drew.push(SearchEvent::Judged { holds: true });
            let refilled = judged.push(SearchEvent::Refilled);
            let drew_again = refilled.push(SearchEvent::Drew { found });
            &&& search_after(drew, policy).1 == SearchAction::JudgeLock
            &&& search_after(judged, policy).1 == SearchAction::RefillLock
            &&& search_after(refilled, policy).1 == SearchAction::DrawInLock
            &&& search_after(drew_again, policy).1 == if found {
                SearchAction::ReturnDrawn
            } else {
                SearchAction::ClearLockAndLook
            }
        }),
{
    let policy = LockExhaustionPolicy::ClearAndRetry;
    let drew = events.push(SearchEvent::Drew { found: false });
    let judged = drew.push(SearchEvent::Judged { holds: true });
    let refilled = judged.push(SearchEvent::Refilled);
    let drew_again = refilled.push(SearchEvent::Drew { found });
    assert(drew.drop_last() =~= events);
    assert(judged.drop_last() =~= drew);
    assert(refilled.drop_last() =~= judged);
    assert(drew_again.drop_last() =~= refilled);
}

/// Where every image of the locked thread was shown lately or looks like one that was, the thread
/// offers nothing to a search that only looks ahead: it returns nothing, and at no point asks to
/// release the lock.
pub proof fn looking_ahead_in_a_spent_thread_finds_nothing(
    candidates: Seq<RemoteCandidate>,
    stream_id: i64,
    excluded: Set<Seq<char>>,
    recent: Seq<RemoteItemId>,
    offers: Seq<usize>,
)
    requires
        forall|i: int|
            0 <= i < candidates.len() && #[trigger] remote_pick::in_lock(candidates, stream_id, i)
                ==> pairing::visual_excluded(candidates[i].visual_key, excluded) || recent.contains(
                candidates[i].item_id,
            ),
        pool::selects(
            offers,
            candidates.len() as int,
            |i: int|
                remote_pick::lock_offers(
                    LockExhaustionPolicy::PreserveAndStop,
                    candidates,
                    stream_id,
                    excluded,
                    recent,
                    i,
                ),
        ),
    ensures
        offers.len() == 0,
        ({
            let looked = seq![SearchEvent::Looked { locked: true }];
            let drew = looked.push(SearchEvent::Drew { found: offers.len() > 0 });
            &&& search_after(looked, LockExhaustionPolicy::PreserveAndStop).1
                == SearchAction::DrawInLock
            &&& search_after(drew, LockExhaustionPolicy::PreserveAndStop) == (
                SearchState::Finished,
                SearchAction::ReturnNothing,
            )
            &&& forall|k: int|
                0 <= k <= drew.len() ==> (#[trigger] search_after(
                    drew.take(k),
                    LockExhaustionPolicy::PreserveAndStop,
                )).1 != SearchAction::ClearLockAndLook
        }),
{
    if offers.len() > 0 {
        let i = offers[0] as int;
        assert(remote_pick::in_lock(candidates, stream_id, i));
    }
    let looked = seq![SearchEvent::Looked { locked: true }];
    let drew = looked.push(SearchEvent::Drew { found: offers.len() > 0 });
    reveal_with_fuel(search_after, 3);
    assert(looked.drop_last() =~= Seq::<SearchEvent>::empty());
    assert(drew.drop_last() =~= looked);
    assert forall|k: int| 0 <= k <= drew.len() implies (#[trigger] search_after(
        drew.take(k),
        LockExhaustionPolicy::PreserveAndStop,
    )).1 != SearchAction::ClearLockAndLook by {
        looking_ahead_keeps_the_lock(drew.take(k));
    }
}

/// While a thread is locked, pairs are drawn in it and nowhere else, however outside images and those
/// of the collection are mixed otherwise.
pub proof fn a_locked_arena_draws_in_the_lock(
    state: SearchState,
    event: SearchEvent,
    policy: LockExhaustionPolicy,
)
    ensures
        searched(state, event, policy).1 == SearchAction::Draw ==> event == (SearchEvent::Looked {
            locked: false,
        }),
        state matches SearchState::Looking { left } && left > 0 && event == (SearchEvent::Looked {
            locked: true,
        }) ==> searched(state, event, policy).1 == SearchAction::DrawInLock,
{
}

/// A pair is returned only from a draw that found one.
pub proof fn only_found_pairs_are_returned(
    state: SearchState,
    event: SearchEvent,
    policy: LockExhaustionPolicy,
)
    ensures
        searched(state, event, policy).1 == SearchAction::ReturnDrawn ==> event
            == (SearchEvent::Drew { found: true }),
{
}

/// A line of the board.
#[derive(Debug)]
pub struct BoardEntry {
    pub asset_id: AssetId,
    pub global_score: Scalar,
    pub certainty: Scalar,
    pub hearted: bool,
    pub session_offset: Scalar,
    pub residual_score: Scalar,
    pub session_focus: Scalar,
    pub session_utility: Scalar,
    pub sampling_pull: Scalar,
}

impl Clone for BoardEntry {
    fn clone(&self) -> (r: Self)
        ensures
            r == *self,
    {
        BoardEntry {
            asset_id: self.asset_id.clone(),
            global_score: self.global_score,
            certainty: self.certainty,
            hearted: self.hearted,
            session_offset: self.session_offset,
            residual_score: self.residual_score,
            session_focus: self.session_focus,
            session_utility: self.session_utility,
            sampling_pull: self.sampling_pull,
        }
    }
}

/// The board.
#[derive(Debug)]
pub struct BoardView {
    pub entries: Vec<BoardEntry>,
}

/// What a line is ordered by: the largest pull first, then the largest focus, then the largest
/// score, then the name of the image.
pub open spec fn board_key(entry: BoardEntry) -> Seq<i128> {
    let pull = -entry.sampling_pull.place();
    let focus = -entry.session_focus.place();
    let score = -entry.global_score.place();
    seq![pull as i128, focus as i128, score as i128] + rank::text_key(entry.asset_id@)
}

/// What all lines are ordered by.
pub open spec fn board_keys(entries: Seq<BoardEntry>) -> Seq<Seq<i128>> {
    entries.map_values(|entry: BoardEntry| board_key(entry))
}

/// The lines at the places of `order`.
pub open spec fn reordered(entries: Seq<BoardEntry>, order: Seq<usize>) -> Seq<BoardEntry> {
    order.map_values(|at: usize| entries[at as int])
}

/// The board with its lines in order.
pub fn board(entries: &Vec<BoardEntry>) -> (r: BoardView)
    ensures
        exists|order: Seq<usize>| #[trigger]
            rank::is_ranking(order, board_keys(entries@)) && r.entries@ == reordered(entries@, order),
        r.entries@.len() == entries@.len(),
        forall|i: int, j: int|
            0 <= i < j < r.entries@.len() ==> laws::arena::may_stand_before(
                #[trigger] r.entries@[i],
                #[trigger] r.entries@[j],
            ),
{
    let mut keys: Vec<Vec<i128>> = Vec::new();
    let mut i: usize = 0;
    while i < entries.len()
        invariant
            i <= entries.len(),
            keys.len() == i,
            forall|j: int| 0 <= j < i ==> (#[trigger] keys@[j])@ == board_key(entries@[j]),
        decreases entries.len() - i,
    {
        let pull: i128 = 0 - entries[i].sampling_pull.place_key();
        let focus: i128 = 0 - entries[i].session_focus.place_key();
        let score: i128 = 0 - entries[i].global_score.place_key();
        let mut key = vec![pull, focus, score];
        rank::push_text_key(&mut key, entries[i].asset_id.0.as_str());
        assert(key@ =~= board_key(entries@[i as int]));
        keys.push(key);
        i += 1;
    }
    assert(rank::key_views(keys@) =~= board_keys(entries@));
    let order = rank::ranking(&keys);
    let mut sorted: Vec<BoardEntry> = Vec::new();
    let mut at: usize = 0;
    while at < order.len()
        invariant
            at <= order.len(),
            rank::is_ranking(order@, board_keys(entries@)),
            sorted@ == reordered(entries@, order@.take(at as int)),
        decreases order.len() - at,
    {
        assert(order@[at as int] < board_keys(entries@).len());
        sorted.push(entries[order[at]].clone());
        proof {
            assert(reordered(entries@, order@.take(at + 1)) =~= reordered(
                entries@,
                order@.take(at as int),
            ).push(entries@[order@[at as int] as int]));
        }
        at += 1;
    }
    assert(order@.take(at as int) =~= order@);
    assert forall|i: int, j: int| 0 <= i < j < sorted@.len() implies laws::arena::may_stand_before(
        #[trigger] sorted@[i],
        #[trigger] sorted@[j],
    ) by {
        laws::arena::the_board_is_in_order(entries@, order@, i, j);
    }
    BoardView { entries: sorted }
}

/// The board has a line for every image: as many lines as were given, and each of them.
pub proof fn the_board_shows_every_image(entries: Seq<BoardEntry>, order: Seq<usize>, i: int)
    requires
        rank::is_ranking(order, board_keys(entries)),
        0 <= i < entries.len(),
        entries.len() <= usize::MAX,
    ensures
        reordered(entries, order).len() == entries.len(),
        reordered(entries, order).contains(entries[i]),
{
    assert(order.contains(i as usize));
    let j = choose|j: int| 0 <= j < order.len() && order[j] == i as usize;
    assert(reordered(entries, order)[j] == entries[i]);
}

} // verus!
