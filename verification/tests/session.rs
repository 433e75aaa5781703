use picmash::arena_scope::PipelineDisposition;
use picmash::arena_session::{
    devour_arena_command_effect, ArenaAdvanceStep, ArenaCommand, ArenaCommandAdmission,
    ArenaCommandAdvance, ArenaCommandEffect, ArenaCommandId, ArenaCommandStatus, ArenaPageStep,
    ArenaPairRef, ArenaRevision, ArenaSamplerEpoch, ArenaSessionRuntime, ArenaTurn, DrawnPair,
    SamplerInvalidation, ARENA_COMMAND_REPLAY_LIMIT, ARENA_PIPELINE_LIMIT,
};
use picmash::model::{ArenaHandle, AssetId, ExploreMapMode, FaceId, RemoteItemId};
use picmash::runtime::{surviving_local_anchor, RedirectTarget, RuntimePhase, RuntimeState};
use picmash::textset::TextSet;

fn local(name: &str) -> ArenaHandle {
    ArenaHandle::Local(AssetId(name.to_owned()))
}

fn remote(item: i64) -> ArenaHandle {
    ArenaHandle::Remote(RemoteItemId(item))
}

fn looks(keys: &[&str]) -> TextSet {
    let mut set = TextSet::new();
    for key in keys {
        set.insert((*key).to_owned());
    }
    set
}

fn drawn(left: ArenaHandle, right: ArenaHandle, keys: &[&str]) -> DrawnPair {
    DrawnPair { pair: ArenaPairRef::forge(left, right), visual_keys: looks(keys) }
}

fn vote(turn: &ArenaTurn, command_id: &str, winner: ArenaHandle) -> ArenaCommand {
    ArenaCommand::Vote {
        command_id: ArenaCommandId(command_id.to_owned()),
        expected_revision: turn.revision(),
        expected_sampler_epoch: turn.sampler_epoch(),
        turn_id: turn.id().clone(),
        action_token: turn.action_token().clone(),
        winner,
    }
}

fn started() -> ArenaSessionRuntime {
    let mut session = ArenaSessionRuntime::new();
    session.install_drawn(&drawn(local("a"), local("b"), &["la", "lb"]));
    session
}

#[test]
fn a_command_is_carried_out_once() {
    let mut session = started();
    let turn = session.current().expect("current");
    let command = vote(&turn, "first", local("a"));
    match session.admit_command(&command) {
        ArenaCommandAdmission::Accepted { pair } => assert!(pair.same(turn.pair())),
        admission => panic!("{admission:?}"),
    }
    let step = session.begin_advance(
        ArenaCommandId("first".to_owned()),
        ArenaCommandAdvance::Preserve,
        &vec![],
    );
    assert!(matches!(step, ArenaAdvanceStep::SampleNext));
    session.finish_advance(&step, Some(&drawn(local("c"), local("d"), &[])));
    assert!(matches!(session.admit_command(&command), ArenaCommandAdmission::Replayed));
    assert_eq!(session.revision(), ArenaRevision(1));
    let next = session.current().expect("next");
    assert!(next.pair().same(&ArenaPairRef::forge(local("c"), local("d"))));
    assert_eq!(next.revision(), ArenaRevision(1));
    assert_ne!(next.id().0, turn.id().0);
}

#[test]
fn of_two_commands_for_one_turn_only_one_counts() {
    let mut session = started();
    let turn = session.current().expect("current");
    let second = vote(&turn, "second", local("b"));
    let step = session.begin_advance(
        ArenaCommandId("first".to_owned()),
        ArenaCommandAdvance::Preserve,
        &vec![],
    );
    session.finish_advance(&step, None);
    assert!(matches!(session.admit_command(&second), ArenaCommandAdmission::Stale));
    let outcome = session.outcome(ArenaCommandStatus::Stale);
    assert_eq!(outcome.status, ArenaCommandStatus::Stale);
    assert!(outcome.current.is_none());
    assert!(session.lacks_current());
}

#[test]
fn every_part_of_the_expectation_counts() {
    let session = started();
    let turn = session.current().expect("current");
    assert!(session.arena_command_matches_current(&vote(&turn, "x", local("a"))));
    let mut revision = vote(&turn, "x", local("a"));
    if let ArenaCommand::Vote { expected_revision, .. } = &mut revision {
        *expected_revision = ArenaRevision(9);
    }
    assert!(!session.arena_command_matches_current(&revision));
    let mut epoch = vote(&turn, "x", local("a"));
    if let ArenaCommand::Vote { expected_sampler_epoch, .. } = &mut epoch {
        *expected_sampler_epoch = ArenaSamplerEpoch(9);
    }
    assert!(!session.arena_command_matches_current(&epoch));
    let mut token = vote(&turn, "x", local("a"));
    if let ArenaCommand::Vote { action_token, .. } = &mut token {
        action_token.0.push('x');
    }
    assert!(!session.arena_command_matches_current(&token));
    let mut id = vote(&turn, "x", local("a"));
    if let ArenaCommand::Vote { turn_id, .. } = &mut id {
        turn_id.0.push('x');
    }
    assert!(!session.arena_command_matches_current(&id));
}

#[test]
fn prepared_turns_follow_in_order() {
    let mut session = started();
    let first = session.prepare(&drawn(local("c"), local("d"), &["lc"]));
    session.prepare(&drawn(local("e"), remote(5), &["le"]));
    assert_eq!(session.pipeline().len(), 2);
    let page = session.page();
    assert_eq!(page.lookahead.expect("lookahead").id().0, first.id().0);
    assert!(page.redirect.is_none());
    let mut seen = session.visual_exclusions().to_vec();
    seen.sort();
    assert_eq!(seen, vec!["la", "lb", "lc", "le"]);

    let step = session.begin_advance(
        ArenaCommandId("go".to_owned()),
        ArenaCommandAdvance::Preserve,
        &vec![false, true],
    );
    assert!(matches!(step, ArenaAdvanceStep::Settled));
    let current = session.current().expect("current");
    assert!(current.pair().same(&ArenaPairRef::forge(local("e"), remote(5))));
    assert_eq!(current.revision(), ArenaRevision(1));
    assert!(session.pipeline().is_empty());
    assert_eq!(current.href(), "/arena/local:e/remote:5");
}

#[test]
fn no_more_turns_are_prepared_than_may_be() {
    let mut session = started();
    let nothing = TextSet::new();
    for index in 0..ARENA_PIPELINE_LIMIT {
        assert!(session.prefetch_exclusions(&nothing).is_some());
        session.prepare(&drawn(local("x"), remote(index as i64), &[]));
    }
    assert!(session.prefetch_exclusions(&nothing).is_none());
    assert!(session.lookahead_exclusions(&nothing).is_none());
    assert!(ArenaSessionRuntime::new().prefetch_exclusions(&nothing).is_none());
}

#[test]
fn a_reset_starts_a_new_epoch() {
    let mut session = started();
    session.prepare(&drawn(local("c"), local("d"), &[]));
    let step = session.begin_advance(
        ArenaCommandId("lock".to_owned()),
        ArenaCommandAdvance::from_disposition(
            PipelineDisposition::Reset,
            Some(AssetId("a".to_owned())),
        ),
        &vec![true],
    );
    match &step {
        ArenaAdvanceStep::SampleReset { local_anchor } => {
            assert_eq!(local_anchor.as_ref().map(|id| id.0.as_str()), Some("a"))
        }
        step => panic!("{step:?}"),
    }
    session.finish_advance(&step, Some(&drawn(local("a"), remote(1), &[])));
    assert_eq!(session.sampler_epoch(), ArenaSamplerEpoch(1));
    assert_eq!(session.revision(), ArenaRevision(1));
    assert!(session.pipeline().is_empty());
    assert_eq!(session.current().expect("current").sampler_epoch(), ArenaSamplerEpoch(1));
}

#[test]
fn flushing_keeps_the_turn_on_screen() {
    let mut session = started();
    let id = session.current().expect("current").id().0.clone();
    session.prepare(&drawn(local("c"), local("d"), &[]));
    session.apply_sampler_invalidation(SamplerInvalidation::Eventual);
    assert_eq!(session.pipeline().len(), 1);
    assert_eq!(session.revision(), ArenaRevision(0));
    session.flush_sampler();
    assert_eq!(session.current().expect("current").id().0, id);
    assert!(session.pipeline().is_empty());
    assert_eq!(session.sampler_epoch(), ArenaSamplerEpoch(1));
    session.apply_sampler_invalidation(SamplerInvalidation::Immediate);
    assert!(session.lacks_current());
    assert_eq!(session.sampler_epoch(), ArenaSamplerEpoch(2));
    assert_eq!(session.revision(), ArenaRevision(2));
}

#[test]
fn dead_turns_are_taken_out() {
    let mut session = started();
    session.prepare(&drawn(local("c"), local("d"), &[]));
    session.prepare(&drawn(local("e"), local("f"), &[]));
    session.cull_dead_arena_state(true, &vec![false, true]);
    assert_eq!(session.pipeline().len(), 1);
    assert_eq!(session.revision(), ArenaRevision(0));
    let known = looks(&[session.pipeline()[0].id().0.as_str()]);
    session.reconcile_pipeline(&known);
    assert_eq!(session.pipeline().len(), 1);
    session.reconcile_pipeline(&TextSet::new());
    assert!(session.pipeline().is_empty());
    session.cull_dead_arena_state(false, &vec![]);
    assert!(session.lacks_current());
    assert_eq!(session.revision(), ArenaRevision(1));
    assert!(matches!(session.current_target(), RedirectTarget::ArenaRoot));
}

#[test]
fn old_commands_are_forgotten_in_order() {
    let mut session = started();
    for index in 0..ARENA_COMMAND_REPLAY_LIMIT + 1 {
        session.remember(ArenaCommandId(format!("c{index}")));
    }
    assert!(!session.already_applied(&ArenaCommandId("c0".to_owned())));
    assert!(session.already_applied(&ArenaCommandId("c1".to_owned())));
    session.remember(ArenaCommandId("c5".to_owned()));
    assert!(session.already_applied(&ArenaCommandId("c1".to_owned())));
    for index in 0..ARENA_COMMAND_REPLAY_LIMIT {
        assert!(session.already_applied(&ArenaCommandId("c512".to_owned())));
        session.remember(ArenaCommandId(format!("d{index}")));
    }
    assert!(!session.already_applied(&ArenaCommandId("c512".to_owned())));
    assert!(session.already_applied(&ArenaCommandId("d0".to_owned())));
    session.remember(ArenaCommandId("d511".to_owned()));
    assert!(session.already_applied(&ArenaCommandId("d0".to_owned())));
}

#[test]
fn pages_are_minted_shown_or_redirected() {
    let mut empty = ArenaSessionRuntime::new();
    let pair = ArenaPairRef::forge(local("x"), remote(2));
    assert!(matches!(empty.open_page(Some(&pair)), ArenaPageStep::Mint { .. }));
    assert!(matches!(
        empty.mint_page(&pair, None),
        ArenaPageStep::Redirect { target: RedirectTarget::ArenaRoot }
    ));
    assert!(matches!(empty.mint_page(&pair, Some(looks(&["k"]))), ArenaPageStep::Show));
    assert!(empty.current().expect("minted").visual_keys().contains(&"k".to_owned()));
    assert!(matches!(empty.open_page(Some(&pair)), ArenaPageStep::Show));
    assert!(matches!(empty.open_page(None), ArenaPageStep::Show));
    let other = ArenaPairRef::forge(remote(2), local("x"));
    match empty.open_page(Some(&other)) {
        ArenaPageStep::Redirect { target } => assert_eq!(target.href(), "/arena/local:x/remote:2"),
        step => panic!("{step:?}"),
    }
}

#[test]
fn commands_speak_of_the_pair_on_screen() {
    let session = started();
    let turn = session.current().expect("current");
    match devour_arena_command_effect(&vote(&turn, "v", local("a")), turn.pair()) {
        Ok(ArenaCommandEffect::Vote { winner }) => assert!(winner.same(&local("a"))),
        effect => panic!("{effect:?}"),
    }
    let refused = devour_arena_command_effect(&vote(&turn, "v", local("z")), turn.pair());
    assert_eq!(
        refused.unwrap_err().message(),
        "winner is not part of the active arena turn"
    );
    let lock = ArenaCommand::LockThread {
        command_id: ArenaCommandId::forge(),
        expected_revision: turn.revision(),
        expected_sampler_epoch: turn.sampler_epoch(),
        turn_id: turn.id().clone(),
        action_token: turn.action_token().clone(),
        handle: local("a"),
        active: true,
    };
    assert_eq!(
        devour_arena_command_effect(&lock, turn.pair()).unwrap_err().message(),
        "thread lock requires a remote arena handle"
    );
}

#[test]
fn revisions_count_up_and_stop_at_the_top() {
    assert_eq!(ArenaRevision(4).next(), ArenaRevision(5));
    assert_eq!(ArenaRevision(u64::MAX).next(), ArenaRevision(u64::MAX));
    assert_eq!(ArenaSamplerEpoch(12).next().to_text(), "13");
    assert_eq!(ArenaRevision(0).to_text(), "0");
}

#[test]
fn addresses_are_these() {
    let id = |name: &str| AssetId(name.to_owned());
    assert_eq!(RedirectTarget::ArenaRoot.href(), "/arena");
    assert_eq!(RedirectTarget::FacemashRoot.href(), "/facemash");
    assert_eq!(
        RedirectTarget::FacemashPair { left_face_id: FaceId(-3), right_face_id: FaceId(12) }.href(),
        "/facemash/-3/12"
    );
    assert_eq!(
        RedirectTarget::ExploreRoot { map_mode: ExploreMapMode::Learned }.href(),
        "/explore?mode=learned"
    );
    let triad = |focus_id| RedirectTarget::ExploreTriad {
        asset_a: id("a"),
        asset_b: id("b"),
        asset_c: id("c"),
        focus_id,
        map_mode: ExploreMapMode::Raw,
    };
    assert_eq!(triad(None).href(), "/explore?mode=raw&triad=a,b,c");
    assert_eq!(triad(Some(id("b"))).href(), "/explore?mode=raw&triad=a,b,c&focus=b");
}

#[test]
fn the_image_beside_a_rejected_one_stays() {
    let (a, r) = (local("a"), remote(1));
    assert_eq!(surviving_local_anchor(&r, &a, &r).map(|id| id.0.as_str()), Some("a"));
    assert_eq!(surviving_local_anchor(&r, &r, &a).map(|id| id.0.as_str()), Some("a"));
    assert!(surviving_local_anchor(&a, &a, &r).is_none());
    assert!(surviving_local_anchor(&r, &a, &local("b")).is_none());
}

#[test]
fn the_runtime_says_how_far_it_is() {
    let mut state: RuntimeState<u8> = RuntimeState::loading();
    assert_eq!(state.snapshot().phase, RuntimePhase::Loading);
    assert!(state.ready_app().is_none());
    state.install_failed("no disk".to_owned());
    assert_eq!(state.snapshot().phase, RuntimePhase::Failed);
    assert_eq!(state.snapshot().message.as_deref(), Some("no disk"));
    state.install_ready(7);
    assert_eq!(state.ready_app(), Some(&7));
    assert_eq!(state.snapshot().phase, RuntimePhase::Ready);
    assert!(state.snapshot().message.is_none());
}
