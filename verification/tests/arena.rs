use picmash::arena::{
    after_hiding, after_hiding_asset, after_veto, arena_handle_is_live, arena_pair, begin_search,
    board, continue_search, heart_effect, hide_effect, load_arena_card, lock_target,
    missing_asset_message, redirect_target_for_pair, set_external_subsource_lock, veto_effect, vote_route, BoardEntry,
    FollowUp, HeartEffect, HideEffect, LockExhaustionPolicy, Presence, SearchAction, SearchEvent,
    VetoEffect, VoteRoute,
};
use picmash::arena_scope::{ArenaScope, PipelineDisposition, ScopeWrite, ThreadKey};
use picmash::arena_session::ArenaPairRef;
use picmash::duel::VoteError;
use picmash::model::{ArenaHandle, AssetId, CorpusId, RemoteItemId};
use picmash::runtime::RedirectTarget;
use picmash::scalar::Scalar;

fn local(name: &str) -> ArenaHandle {
    ArenaHandle::Local(AssetId(name.to_owned()))
}

fn remote(item: i64) -> ArenaHandle {
    ArenaHandle::Remote(RemoteItemId(item))
}

fn thread() -> Option<ThreadKey> {
    Some(ThreadKey::new("4chan:s", 10))
}

#[test]
fn votes_go_where_the_images_are() {
    assert!(matches!(
        vote_route(&local("a"), &local("b"), &local("a")),
        Ok(VoteRoute::Local { .. })
    ));
    match vote_route(&remote(4), &local("a"), &local("a")) {
        Ok(VoteRoute::Remote { local_id, remote_id }) => {
            assert_eq!((local_id.0.as_str(), remote_id), ("a", RemoteItemId(4)))
        }
        route => panic!("{route:?}"),
    }
    assert_eq!(
        vote_route(&local("a"), &local("b"), &remote(1)).unwrap_err(),
        VoteError::RemoteWinner
    );
    let forbidden = vote_route(&remote(1), &remote(2), &remote(1)).unwrap_err();
    assert_eq!(forbidden.message(), "remote-vs-remote arena duels are forbidden");
    assert_eq!(
        VoteError::RemoteWinner.message(),
        "remote winner is impossible in a local duel"
    );
}

#[test]
fn hiding_an_outside_image_rejects_its_cluster() {
    let cluster = vec![RemoteItemId(8), RemoteItemId(9)];
    match hide_effect(&remote(7), true, &cluster, &local("a"), &remote(7)) {
        HideEffect::Remote { rejected, anchor, purge_duplicates } => {
            assert_eq!(rejected, vec![RemoteItemId(7), RemoteItemId(8), RemoteItemId(9)]);
            assert_eq!(anchor.map(|id| id.0), Some("a".to_owned()));
            assert!(purge_duplicates);
        }
        effect => panic!("{effect:?}"),
    }
    match hide_effect(&remote(7), false, &cluster, &local("a"), &remote(7)) {
        HideEffect::Remote { rejected, purge_duplicates, .. } => {
            assert!(rejected.is_empty() && !purge_duplicates)
        }
        effect => panic!("{effect:?}"),
    }
    assert!(matches!(
        hide_effect(&local("a"), true, &cluster, &local("a"), &remote(7)),
        HideEffect::Asset { hidden: true, .. }
    ));
    match after_hiding(&remote(7), &local("a"), &remote(7)) {
        FollowUp::NextPairFor(Some(anchor)) => assert_eq!(anchor.0, "a"),
        follow_up => panic!("{follow_up:?}"),
    }
    assert!(matches!(after_hiding(&local("a"), &local("a"), &remote(7)), FollowUp::NextPair));
    assert!(matches!(after_hiding_asset(true), FollowUp::NextPair));
    assert!(matches!(after_hiding_asset(false), FollowUp::Page(RedirectTarget::ArenaRoot)));
}

#[test]
fn a_veto_releases_the_lock_on_its_own_thread() {
    let scope = ArenaScope::LockedThread(ThreadKey::new("4chan:s", 10));
    let effect =
        veto_effect(&remote(7), &local("a"), &remote(7), thread(), &scope).expect("veto");
    assert_eq!(effect.pipeline(), PipelineDisposition::Reset);
    match &effect {
        VetoEffect::Blocked { transition, .. } => assert_eq!(transition.write, ScopeWrite::Clear),
        effect => panic!("{effect:?}"),
    }
    assert!(matches!(after_veto(&effect), FollowUp::NextPairFor(Some(_))));
    let ignored = veto_effect(&local("a"), &local("a"), &remote(7), None, &scope).expect("veto");
    assert_eq!(ignored.pipeline(), PipelineDisposition::Preserve);
    assert!(matches!(after_veto(&ignored), FollowUp::CurrentPair));
    let missing = veto_effect(&remote(7), &local("a"), &remote(7), None, &scope).unwrap_err();
    assert_eq!(missing.message(), "missing remote item 7");
}

#[test]
fn locks_are_set_and_released() {
    let locked = set_external_subsource_lock(RemoteItemId(7), true, thread(), &ArenaScope::Global)
        .expect("lock");
    assert_eq!(locked.next_scope, ArenaScope::LockedThread(ThreadKey::new("4chan:s", 10)));
    let released = set_external_subsource_lock(RemoteItemId(7), false, None, &locked.next_scope)
        .expect("unlock");
    assert_eq!(released.next_scope, ArenaScope::Global);
    assert!(set_external_subsource_lock(RemoteItemId(7), true, None, &ArenaScope::Global).is_err());
    let (item, page) = lock_target(&remote(7), &local("a"), &remote(7));
    assert_eq!(item, Some(RemoteItemId(7)));
    assert_eq!(page.href(), "/arena/local:a/remote:7");
    assert_eq!(lock_target(&local("a"), &local("a"), &remote(7)).0, None);
}

#[test]
fn hearts_take_outside_images_in() {
    assert!(matches!(heart_effect(&remote(3), true), (HeartEffect::Enshrine(_), FollowUp::CurrentPair)));
    assert!(matches!(heart_effect(&remote(3), false).0, HeartEffect::Nothing));
    assert!(matches!(
        heart_effect(&local("a"), false),
        (HeartEffect::Asset(_), FollowUp::Page(RedirectTarget::ArenaRoot))
    ));
}

#[test]
fn pairs_are_of_two_images() {
    assert!(arena_pair(Some(&local("a")), Some(&local("a"))).is_none());
    assert!(arena_pair(Some(&local("a")), None).is_none());
    let view = arena_pair(Some(&local("a")), Some(&remote(3))).expect("pair");
    assert_eq!(view.cluster_of, Some(RemoteItemId(3)));
    assert_eq!(
        redirect_target_for_pair(Some(ArenaPairRef::forge(local("a"), remote(3)))).href(),
        "/arena/local:a/remote:3"
    );
    assert_eq!(redirect_target_for_pair(None).href(), "/arena");
    let hidden = Some(Presence { hidden: true, file_exists: true });
    assert!(!arena_handle_is_live(&local("a"), hidden));
    assert!(arena_handle_is_live(&remote(3), hidden));
    let gone = Some(Presence { hidden: false, file_exists: false });
    assert!(!arena_handle_is_live(&remote(3), gone));
    assert!(!arena_handle_is_live(&remote(3), None));
    let shown = Some(Presence { hidden: false, file_exists: true });
    assert_eq!(load_arena_card(&local("a"), shown, false), Some(&local("a")));
    assert_eq!(load_arena_card(&local("a"), hidden, true), None);
    assert_eq!(load_arena_card(&remote(3), shown, true), Some(&remote(3)));
    assert_eq!(load_arena_card(&remote(3), shown, false), None);
    assert_eq!(load_arena_card(&remote(3), gone, true), None);
    assert_eq!(
        missing_asset_message(&AssetId("a".to_owned()), CorpusId(2)),
        "asset a not found in corpus 2"
    );
}

const LOCKED: SearchEvent = SearchEvent::Looked { locked: true };
const UNLOCKED: SearchEvent = SearchEvent::Looked { locked: false };
const FOUND: SearchEvent = SearchEvent::Drew { found: true };
const EMPTY: SearchEvent = SearchEvent::Drew { found: false };
const HOLDS: SearchEvent = SearchEvent::Judged { holds: true };
const SPENT: SearchEvent = SearchEvent::Judged { holds: false };

fn actions(policy: LockExhaustionPolicy, events: &[SearchEvent]) -> Vec<SearchAction> {
    let (mut state, mut action) = begin_search();
    let mut seen = vec![action];
    for event in events {
        (state, action) = continue_search(state, *event, policy);
        seen.push(action);
    }
    seen
}

#[test]
fn an_exhausted_lock_is_released_once_and_only_if_it_may_be() {
    let retry = LockExhaustionPolicy::ClearAndRetry;
    assert_eq!(
        actions(retry, &[LOCKED, EMPTY, SPENT, UNLOCKED, FOUND]),
        vec![
            SearchAction::Look,
            SearchAction::DrawInLock,
            SearchAction::JudgeLock,
            SearchAction::ClearLockAndLook,
            SearchAction::Draw,
            SearchAction::ReturnDrawn,
        ]
    );
    assert_eq!(
        actions(retry, &[LOCKED, EMPTY, SPENT, LOCKED, EMPTY, SPENT, LOCKED]).last(),
        Some(&SearchAction::ReturnNothing)
    );
    assert_eq!(actions(retry, &[UNLOCKED, EMPTY]).last(), Some(&SearchAction::ReturnNothing));
}

#[test]
fn a_lock_worth_holding_is_refilled_before_it_is_given_up() {
    let retry = LockExhaustionPolicy::ClearAndRetry;
    let refilled = SearchEvent::Refilled;
    assert_eq!(
        actions(retry, &[LOCKED, EMPTY, HOLDS, refilled, FOUND]),
        vec![
            SearchAction::Look,
            SearchAction::DrawInLock,
            SearchAction::JudgeLock,
            SearchAction::RefillLock,
            SearchAction::DrawInLock,
            SearchAction::ReturnDrawn,
        ]
    );
    assert_eq!(
        actions(retry, &[LOCKED, EMPTY, HOLDS, refilled, EMPTY, UNLOCKED]),
        vec![
            SearchAction::Look,
            SearchAction::DrawInLock,
            SearchAction::JudgeLock,
            SearchAction::RefillLock,
            SearchAction::DrawInLock,
            SearchAction::ClearLockAndLook,
            SearchAction::Draw,
        ]
    );
}

#[test]
fn looking_ahead_stops_at_an_exhausted_lock() {
    let ahead = LockExhaustionPolicy::PreserveAndStop;
    assert_eq!(
        actions(ahead, &[LOCKED, EMPTY]),
        vec![SearchAction::Look, SearchAction::DrawInLock, SearchAction::ReturnNothing]
    );
    assert_eq!(
        actions(ahead, &[LOCKED, FOUND]),
        vec![SearchAction::Look, SearchAction::DrawInLock, SearchAction::ReturnDrawn]
    );
}

#[test]
fn the_board_lists_every_image_in_order() {
    let scalar = |value: f32| Scalar { bits: value.to_bits() };
    let entry = |name: &str, pull: f32, focus: f32, score: f32| BoardEntry {
        asset_id: AssetId(name.to_owned()),
        global_score: scalar(score),
        certainty: scalar(0.0),
        hearted: false,
        session_offset: scalar(0.0),
        residual_score: scalar(0.0),
        session_focus: scalar(focus),
        session_utility: scalar(0.0),
        sampling_pull: scalar(pull),
    };
    let view = board(&vec![
        entry("d", 0.5, 1.0, 1.0),
        entry("b", 0.9, 0.0, -1.0),
        entry("c", 0.5, 2.0, 0.0),
        entry("a", 0.5, 1.0, 1.0),
        entry("e", 0.5, 1.0, 2.0),
    ]);
    let names: Vec<&str> = view.entries.iter().map(|line| line.asset_id.0.as_str()).collect();
    assert_eq!(names, vec!["b", "c", "e", "a", "d"]);
}
