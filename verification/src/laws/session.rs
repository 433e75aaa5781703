//! The running comparison.
use crate::arena_session;
use crate::arena_session::{
    ArenaCommand, ArenaCommandEffect, CommandHeader, DrawnPair, SessionModel, TurnModel,
};
use crate::ids;
use crate::model::HandleModel;
use vstd::prelude::*;

verus! {

/// How many of the first `i` flags are set.
pub open spec fn set_before(flags: Seq<bool>, i: int) -> int
    decreases i,
{
    if i <= 0 {
        0
    } else {
        set_before(flags, i - 1) + if flags[i - 1] {
            1int
        } else {
            0int
        }
    }
}

proof fn lemma_set_before_prefix(a: Seq<bool>, b: Seq<bool>, i: int)
    requires
        forall|k: int| 0 <= k < i ==> a[k] == b[k],
    ensures
        set_before(a, i) == set_before(b, i),
    decreases i,
{
    if i > 0 {
        lemma_set_before_prefix(a, b, i - 1);
    }
}

proof fn lemma_set_before_grows(flags: Seq<bool>, i: int, j: int)
    requires
        0 <= i <= j,
    ensures
        0 <= set_before(flags, i) <= set_before(flags, j) <= set_before(flags, i) + (j - i),
        i < j && flags[i] ==> set_before(flags, i) < set_before(flags, j),
    decreases j,
{
    if i < j {
        lemma_set_before_grows(flags, i, j - 1);
    } else if j > 0 {
        lemma_set_before_grows(flags, i - 1, j - 1);
    }
}

proof fn lemma_kept_places<T>(items: Seq<T>, flags: Seq<bool>, i: int)
    requires
        flags.len() == items.len(),
        0 <= i < items.len(),
    ensures
        arena_session::kept(items, flags).len() == set_before(flags, items.len() as int),
        0 <= set_before(flags, i) <= set_before(flags, items.len() as int),
        flags[i] ==> set_before(flags, i) < set_before(flags, items.len() as int)
            && arena_session::kept(items, flags)[set_before(flags, i)] == items[i],
    decreases items.len(),
{
    let last = items.len() - 1;
    lemma_set_before_grows(flags, i, items.len() as int);
    lemma_set_before_prefix(flags.drop_last(), flags, last);
    if i < last {
        lemma_kept_places(items.drop_last(), flags.drop_last(), i);
        lemma_set_before_prefix(flags.drop_last(), flags, i);
        lemma_set_before_grows(flags, i, last);
    } else if last > 0 {
        lemma_kept_places(items.drop_last(), flags.drop_last(), last - 1);
    } else {
        assert(arena_session::kept(items.drop_last(), flags.drop_last()).len() == 0);
    }
}

/// Both turns are the same comparison, whatever they count as.
pub open spec fn same_turn(a: TurnModel, b: TurnModel) -> bool {
    &&& a.id == b.id
    &&& a.action_token == b.action_token
    &&& a.pair == b.pair
    &&& a.visual_keys == b.visual_keys
}

/// The comparison is on screen, and belongs to the session as it is.
pub open spec fn on_screen(session: SessionModel, turn: TurnModel) -> bool {
    match session.current {
        None => false,
        Some(shown) => same_turn(shown, turn) && shown.revision == session.revision
            && shown.sampler_epoch == session.sampler_epoch,
    }
}

/// The session after a command was carried out that leaves the prepared turns standing.
pub open spec fn advanced(session: SessionModel, command_id: Seq<char>, live: Seq<bool>) -> SessionModel {
    session.remembered(command_id).pipeline_culled(live).revision_advanced().pipeline_promoted()
}

/// Which prepared turns can still be shown.
pub open spec fn showable(session: SessionModel, live: Seq<bool>) -> Seq<bool> {
    Seq::new(
        session.pipeline.len(),
        |i: int| live[i] && session.pipeline[i].sampler_epoch == session.sampler_epoch,
    )
}

/// Prepared turns are shown in the order in which they were prepared: after a command the first one
/// that can still be shown is on screen, and behind it stand the others that can, in their order. Where
/// none can, what is on screen stays and nothing is prepared.
pub proof fn the_first_prepared_turn_comes_on_screen(
    session: SessionModel,
    command_id: Seq<char>,
    live: Seq<bool>,
    i: int,
)
    requires
        live.len() == session.pipeline.len(),
        0 <= i < session.pipeline.len(),
    ensures
        ({
            let flags = showable(session, live);
            let after = advanced(session, command_id, live);
            let ahead = set_before(flags, i);
            let all = set_before(flags, session.pipeline.len() as int);
            &&& flags[i] && ahead == 0 ==> on_screen(after, session.pipeline[i])
            &&& flags[i] && ahead > 0 ==> ahead <= after.pipeline.len() && same_turn(
                after.pipeline[ahead - 1],
                session.pipeline[i],
            )
            &&& after.pipeline.len() == if all == 0 {
                0
            } else {
                all - 1
            }
            &&& all == 0 ==> match session.current {
                None => after.current is None,
                Some(held) => match after.current {
                    None => false,
                    Some(turn) => same_turn(turn, held),
                },
            }
        }),
{
    lemma_kept_places(session.pipeline, showable(session, live), i);
    let remembered = session.remembered(command_id);
    assert(showable(remembered, live) =~= showable(session, live));
}

/// The turn at `i` is the first of the prepared ones that can still be shown.
pub open spec fn first_showable(session: SessionModel, live: Seq<bool>, i: int) -> bool {
    &&& 0 <= i < session.pipeline.len()
    &&& live[i] && session.pipeline[i].sampler_epoch == session.sampler_epoch
    &&& forall|j: int|
        0 <= j < i ==> !(live[j] && (#[trigger] session.pipeline[j]).sampler_epoch == session.sampler_epoch)
}

/// After a command the first prepared turn that can still be shown is on screen.
pub proof fn the_first_showable_turn_comes_on_screen(
    session: SessionModel,
    command_id: Seq<char>,
    live: Seq<bool>,
    i: int,
)
    requires
        live.len() == session.pipeline.len(),
        first_showable(session, live, i),
    ensures
        on_screen(advanced(session, command_id, live), session.pipeline[i]),
{
    the_first_prepared_turn_comes_on_screen(session, command_id, live, i);
    let flags = showable(session, live);
    assert forall|j: int| 0 <= j < i implies !#[trigger] flags[j] by {
        assert(!(live[j] && session.pipeline[j].sampler_epoch == session.sampler_epoch));
    }
    lemma_none_set_before(flags, i);
}

proof fn lemma_none_set_before(flags: Seq<bool>, i: int)
    requires
        0 <= i <= flags.len(),
        forall|j: int| 0 <= j < i ==> !#[trigger] flags[j],
    ensures
        set_before(flags, i) == 0,
    decreases i,
{
    if i > 0 {
        lemma_none_set_before(flags, i - 1);
        assert(!flags[i - 1]);
    }
}

/// A command that is carried out counts the session one revision up, keeps its epoch and is
/// remembered; every turn then belongs to the new revision.
pub proof fn a_command_moves_the_session_on(session: SessionModel, command_id: Seq<char>, live: Seq<bool>)
    requires
        session.wf(),
        live.len() == session.pipeline.len(),
    ensures
        ({
            let after = advanced(session, command_id, live);
            &&& session.revision < u64::MAX ==> after.revision == session.revision + 1
            &&& session.revision == u64::MAX ==> after.revision == session.revision
            &&& after.sampler_epoch == session.sampler_epoch
            &&& after.applied.contains(command_id)
            &&& after.wf()
        }),
{
    let turn = arbitrary();
    arena_session::sessions_stay_well_formed(
        session,
        turn,
        command_id,
        live,
        true,
        Set::empty(),
    );
    let remembered = session.remembered(command_id);
    arena_session::sessions_stay_well_formed(remembered, turn, command_id, live, true, Set::empty());
    let culled = remembered.pipeline_culled(live);
    arena_session::sessions_stay_well_formed(culled, turn, command_id, live, true, Set::empty());
    let moved = culled.revision_advanced();
    arena_session::sessions_stay_well_formed(moved, turn, command_id, live, true, Set::empty());
    arena_session::carried_out_commands_are_recognised_at_once(session, command_id);
}

/// The session after one command after the other, each of which leaves the prepared turns standing.
pub open spec fn advanced_by(session: SessionModel, command_ids: Seq<Seq<char>>) -> SessionModel
    decreases command_ids.len(),
{
    if command_ids.len() == 0 {
        session
    } else {
        let before = advanced_by(session, command_ids.drop_last());
        advanced(before, command_ids.last(), Seq::new(before.pipeline.len(), |i: int| true))
    }
}

/// First in, first out: while all prepared turns can be shown, the turn on screen after some commands
/// is the one that stood at that place among the prepared ones, and the later ones are still prepared.
pub proof fn prepared_turns_are_shown_in_order(session: SessionModel, command_ids: Seq<Seq<char>>)
    requires
        session.wf(),
        command_ids.len() <= session.pipeline.len(),
    ensures
        ({
            let n = command_ids.len() as int;
            let after = advanced_by(session, command_ids);
            &&& after.wf()
            &&& after.sampler_epoch == session.sampler_epoch
            &&& n > 0 ==> on_screen(after, session.pipeline[n - 1])
            &&& after.pipeline.len() == session.pipeline.len() - n
            &&& forall|i: int|
                0 <= i < after.pipeline.len() ==> same_turn(
                    #[trigger] after.pipeline[i],
                    session.pipeline[n + i],
                )
        }),
    decreases command_ids.len(),
{
    if command_ids.len() > 0 {
        let n = command_ids.len() as int;
        prepared_turns_are_shown_in_order(session, command_ids.drop_last());
        let before = advanced_by(session, command_ids.drop_last());
        let live = Seq::new(before.pipeline.len(), |i: int| true);
        let after = advanced_by(session, command_ids);
        a_command_moves_the_session_on(before, command_ids.last(), live);
        let flags = showable(before, live);
        assert forall|i: int| 0 <= i < flags.len() implies #[trigger] flags[i] by {
            assert(before.pipeline[i] == before.pipeline[i].at(before.revision, before.sampler_epoch));
        }
        lemma_all_set(flags, before.pipeline.len() as int);
        the_first_prepared_turn_comes_on_screen(before, command_ids.last(), live, 0);
        assert(set_before(flags, 0) == 0);
        assert(same_turn(before.pipeline[0], session.pipeline[n - 1]));
        assert forall|i: int| 0 <= i < after.pipeline.len() implies same_turn(
            #[trigger] after.pipeline[i],
            session.pipeline[n + i],
        ) by {
            the_first_prepared_turn_comes_on_screen(before, command_ids.last(), live, i + 1);
            lemma_all_set(flags, i + 1);
            assert(same_turn(before.pipeline[i + 1], session.pipeline[n - 1 + i + 1]));
        }
    }
}

proof fn lemma_all_set(flags: Seq<bool>, i: int)
    requires
        0 <= i <= flags.len(),
        forall|k: int| 0 <= k < flags.len() ==> #[trigger] flags[k],
    ensures
        set_before(flags, i) == i,
    decreases i,
{
    if i > 0 {
        lemma_all_set(flags, i - 1);
    }
}

/// A turn that is prepared stands behind all that already were, and changes nothing else.
pub proof fn prepared_turns_stand_last(session: SessionModel, turn: TurnModel)
    ensures
        ({
            let after = session.prepared(turn);
            &&& after.pipeline.len() == session.pipeline.len() + 1
            &&& after.pipeline[session.pipeline.len() as int] == turn
            &&& forall|i: int|
                0 <= i < session.pipeline.len() ==> #[trigger] after.pipeline[i] == session.pipeline[i]
            &&& after.current == session.current
            &&& after.revision == session.revision
            &&& after.sampler_epoch == session.sampler_epoch
            &&& after.applied == session.applied
        }),
{
}

/// Counting up gives the next number, and the largest number stays.
pub proof fn counting_up_stops_at_the_largest(n: u64)
    ensures
        n < u64::MAX ==> arena_session::bump(n) == n + 1,
        n == u64::MAX ==> arena_session::bump(n) == n,
{
}

/// A shattered session shows and prepares nothing and is one revision on. An invalidated one is one
/// epoch on as well. Neither forgets a command.
pub proof fn a_shattered_session_is_empty(session: SessionModel)
    requires
        session.revision < u64::MAX,
        session.sampler_epoch < u64::MAX,
    ensures
        ({
            let (shattered, invalidated) = (session.shattered(), session.sampler_invalidated());
            &&& shattered.current is None && shattered.pipeline.len() == 0
            &&& invalidated.current is None && invalidated.pipeline.len() == 0
            &&& shattered.revision == invalidated.revision == session.revision + 1
            &&& shattered.sampler_epoch == session.sampler_epoch
            &&& invalidated.sampler_epoch == session.sampler_epoch + 1
            &&& shattered.applied == session.applied
            &&& invalidated.applied == session.applied
        }),
{
}

/// A flush keeps the comparison on screen and drops the prepared ones; revision and epoch count up.
pub proof fn a_flush_keeps_what_is_on_screen(session: SessionModel)
    requires
        session.revision < u64::MAX,
        session.sampler_epoch < u64::MAX,
    ensures
        ({
            let after = session.sampler_flushed();
            &&& match session.current {
                None => after.current is None,
                Some(held) => on_screen(after, held),
            }
            &&& after.pipeline.len() == 0
            &&& after.revision == session.revision + 1
            &&& after.sampler_epoch == session.sampler_epoch + 1
            &&& after.applied == session.applied
        }),
{
}

/// A reset puts the given turn, or none, on screen and drops all others; the revision counts up, and
/// the epoch where turns are drawn differently now.
pub proof fn a_reset_shows_the_given_turn_alone(session: SessionModel, turn: Option<TurnModel>)
    requires
        session.revision < u64::MAX,
        session.sampler_epoch < u64::MAX,
    ensures
        ({
            let (kept, drawn_anew) = (session.reset_to(turn), session.sampler_reset_to(turn));
            &&& match turn {
                None => kept.current is None && drawn_anew.current is None,
                Some(given) => on_screen(kept, given) && on_screen(drawn_anew, given),
            }
            &&& kept.pipeline.len() == 0 && drawn_anew.pipeline.len() == 0
            &&& kept.revision == drawn_anew.revision == session.revision + 1
            &&& kept.sampler_epoch == session.sampler_epoch
            &&& drawn_anew.sampler_epoch == session.sampler_epoch + 1
            &&& kept.applied == session.applied && drawn_anew.applied == session.applied
        }),
{
}

/// A revision more keeps every turn where it stands. Installing a turn changes nothing but the screen.
pub proof fn a_new_revision_keeps_every_turn(session: SessionModel, turn: TurnModel, i: int)
    requires
        session.revision < u64::MAX,
    ensures
        ({
            let after = session.revision_advanced();
            &&& after.revision == session.revision + 1
            &&& after.sampler_epoch == session.sampler_epoch
            &&& after.applied == session.applied
            &&& after.pipeline.len() == session.pipeline.len()
            &&& 0 <= i < session.pipeline.len() ==> same_turn(after.pipeline[i], session.pipeline[i])
                && after.pipeline[i].revision == after.revision
            &&& match session.current {
                None => after.current is None,
                Some(held) => match after.current {
                    None => false,
                    Some(shown) => same_turn(shown, held) && shown.revision == after.revision,
                },
            }
        }),
        ({
            let after = session.current_installed(turn);
            &&& on_screen(after, turn)
            &&& after.pipeline == session.pipeline
            &&& after.revision == session.revision
            &&& after.sampler_epoch == session.sampler_epoch
            &&& after.applied == session.applied
        }),
{
}

/// Remembering a command changes nothing but what is remembered; what was remembered before stays so
/// while there is room.
pub proof fn remembering_changes_nothing_else(session: SessionModel, command_id: Seq<char>, other: Seq<char>)
    requires
        session.wf(),
    ensures
        ({
            let after = session.remembered(command_id);
            &&& after.current == session.current
            &&& after.pipeline == session.pipeline
            &&& after.revision == session.revision
            &&& after.sampler_epoch == session.sampler_epoch
            &&& after.applied.contains(command_id)
            &&& after.applied.contains(other) ==> other == command_id || session.applied.contains(other)
            &&& session.applied.contains(other) && session.applied.len() < 512 ==> after.applied.contains(
                other,
            )
            &&& session.applied.contains(other) && session.applied.contains(command_id)
                ==> after.applied.contains(other)
            &&& session.applied.contains(other) && other != session.applied[0] ==> after.applied.contains(
                other,
            )
        }),
{
    arena_session::carried_out_commands_are_recognised_at_once(session, command_id);
    let after = session.remembered(command_id).applied;
    let before = session.applied;
    if after.contains(other) {
        let i = choose|i: int| 0 <= i < after.len() && after[i] == other;
        if !before.contains(command_id) {
            if before.len() == 512 {
                if i < 511 {
                    assert(before[i + 1] == other);
                }
            } else if i < before.len() {
                assert(before[i] == other);
            }
        }
    }
    if before.contains(other) {
        let i = choose|i: int| 0 <= i < before.len() && before[i] == other;
        if before.contains(command_id) || before.len() < 512 {
            assert(after[i] == other);
        } else if i > 0 {
            assert(after[i - 1] == other);
        }
    }
}

/// Reconciling keeps exactly the prepared turns that the page knows, in their order, and nothing else
/// changes.
pub proof fn only_known_turns_stay_prepared(session: SessionModel, known: Set<Seq<char>>, i: int)
    requires
        0 <= i < session.pipeline.len(),
    ensures
        ({
            let after = session.pipeline_reconciled(known);
            let flags = Seq::new(session.pipeline.len(), |k: int| known.contains(session.pipeline[k].id));
            &&& after.pipeline.len() == set_before(flags, session.pipeline.len() as int)
            &&& 0 <= set_before(flags, i) <= after.pipeline.len()
            &&& known.contains(session.pipeline[i].id) ==> set_before(flags, i) < after.pipeline.len()
                && after.pipeline[set_before(flags, i)] == session.pipeline[i]
            &&& after.current == session.current
            &&& after.revision == session.revision
            &&& after.sampler_epoch == session.sampler_epoch
            &&& after.applied == session.applied
        }),
    decreases session.pipeline.len(),
{
    reveal(Seq::filter);
    let flags = Seq::new(session.pipeline.len(), |k: int| known.contains(session.pipeline[k].id));
    let last = session.pipeline.len() - 1;
    let shorter = SessionModel { pipeline: session.pipeline.drop_last(), ..session };
    let fewer = Seq::new(shorter.pipeline.len(), |k: int| known.contains(shorter.pipeline[k].id));
    lemma_set_before_prefix(fewer, flags, last);
    lemma_set_before_grows(flags, i, session.pipeline.len() as int);
    let before = shorter.pipeline_reconciled(known).pipeline;
    assert(session.pipeline_reconciled(known).pipeline == if flags[last] {
        before.push(session.pipeline[last])
    } else {
        before
    });
    if i < last {
        only_known_turns_stay_prepared(shorter, known, i);
        lemma_set_before_prefix(fewer, flags, i);
        lemma_set_before_grows(flags, i, last);
    } else if last > 0 {
        only_known_turns_stay_prepared(shorter, known, last - 1);
    } else {
        assert(before.len() == 0);
    }
}

/// Culling keeps exactly the prepared turns that can still be shown, in their order. Where the turn on
/// screen cannot be shown any more, all go and the session is one revision on.
pub proof fn only_live_turns_stay(session: SessionModel, current_live: bool, live: Seq<bool>, i: int)
    requires
        session.wf(),
        live.len() == session.pipeline.len(),
        0 <= i < session.pipeline.len(),
    ensures
        ({
            let after = session.culled(current_live, live);
            let dead = session.current is Some && !current_live;
            &&& dead ==> after.current is None && after.pipeline.len() == 0 && (session.revision
                < u64::MAX ==> after.revision == session.revision + 1)
            &&& !dead ==> {
                &&& after.current == session.current
                &&& after.revision == session.revision
                &&& after.pipeline == session.pipeline_culled(live).pipeline
                &&& after.pipeline.len() == set_before(live, session.pipeline.len() as int)
                &&& 0 <= set_before(live, i) <= after.pipeline.len()
                &&& live[i] ==> set_before(live, i) < after.pipeline.len()
                    && after.pipeline[set_before(live, i)] == session.pipeline[i]
            }
            &&& after.sampler_epoch == session.sampler_epoch
            &&& after.applied == session.applied
        }),
{
    let flags = showable(session, live);
    assert forall|k: int| 0 <= k < live.len() implies flags[k] == live[k] by {
        assert(session.pipeline[k] == session.pipeline[k].at(session.revision, session.sampler_epoch));
    }
    assert(flags =~= live);
    lemma_kept_places(session.pipeline, flags, i);
}

/// A turn of an earlier epoch is not kept, whether it could be shown or not.
pub proof fn turns_of_an_earlier_epoch_are_dropped(session: SessionModel, live: Seq<bool>)
    requires
        live.len() == session.pipeline.len(),
        forall|k: int|
            0 <= k < session.pipeline.len() ==> (#[trigger] session.pipeline[k]).sampler_epoch
                != session.sampler_epoch,
    ensures
        session.pipeline_culled(live).pipeline.len() == 0,
        session.current matches Some(turn) && turn.sampler_epoch != session.sampler_epoch
            ==> session.culled(true, live).current is None,
{
    let flags = showable(session, live);
    if session.pipeline.len() > 0 {
        lemma_kept_places(session.pipeline, flags, 0);
        lemma_none_set(flags, flags.len() as int);
    }
}

proof fn lemma_none_set(flags: Seq<bool>, i: int)
    requires
        0 <= i <= flags.len(),
        forall|k: int| 0 <= k < flags.len() ==> !#[trigger] flags[k],
    ensures
        set_before(flags, i) == 0,
    decreases i,
{
    if i > 0 {
        lemma_none_set(flags, i - 1);
    }
}

/// A command is expected exactly where there is a turn on screen and the command names that turn, its
/// token, and the revision and epoch that the session is at; each of them alone makes it stale.
pub proof fn commands_are_for_the_turn_on_screen(session: SessionModel, header: CommandHeader)
    requires
        session.wf(),
    ensures
        session.current is None ==> !session.expects(header),
        session.current matches Some(turn) ==> {
            &&& header.turn_id != turn.id ==> !session.expects(header)
            &&& header.action_token != turn.action_token ==> !session.expects(header)
            &&& header.expected_revision != session.revision ==> !session.expects(header)
            &&& header.expected_sampler_epoch != session.sampler_epoch ==> !session.expects(header)
            &&& header.turn_id == turn.id && header.action_token == turn.action_token
                && header.expected_revision == session.revision && header.expected_sampler_epoch
                == session.sampler_epoch ==> session.expects(header)
        },
{
}

/// A command for a turn that waited is not expected before the turn is on screen, unless both bear the
/// same name and token; and one that was expected is stale once the session has moved on.
pub proof fn commands_are_stale_once_the_session_moved_on(
    session: SessionModel,
    header: CommandHeader,
    command_id: Seq<char>,
    live: Seq<bool>,
)
    requires
        session.wf(),
        live.len() == session.pipeline.len(),
        session.revision < u64::MAX,
        session.expects(header),
    ensures
        !advanced(session, command_id, live).expects(header),
        !session.sampler_flushed().expects(header),
        !session.shattered().expects(header),
{
    a_command_moves_the_session_on(session, command_id, live);
}

/// The looks that may not be repeated are those of the turn on screen and of every prepared turn.
pub proof fn looks_on_screen_or_behind_are_not_repeated(session: SessionModel, key: Seq<char>, i: int)
    ensures
        session.current matches Some(turn) && turn.visual_keys.contains(key)
            ==> session.shown_looks().contains(key),
        0 <= i < session.pipeline.len() && session.pipeline[i].visual_keys.contains(key)
            ==> session.shown_looks().contains(key),
        session.current is None && session.pipeline.len() == 0 ==> !session.shown_looks().contains(key),
        session.shown_looks().contains(key) ==> (session.current matches Some(turn)
            && turn.visual_keys.contains(key)) || exists|k: int|
            0 <= k < session.pipeline.len() && #[trigger] session.pipeline[k].visual_keys.contains(key),
{
}

/// What a command asks for speaks of the image that the command names: a vote of its winner, the others
/// of their subject; only an outside image can be locked.
pub proof fn effects_speak_of_the_named_image(command: ArenaCommand, effect: ArenaCommandEffect)
    requires
        arena_session::carries_out(effect, command),
    ensures
        command is Vote <==> effect is Vote,
        command is Hide <==> effect is Hide,
        command is LockThread <==> effect is LockThread,
        command is VetoThread <==> effect is VetoThread,
        effect matches ArenaCommandEffect::Vote { winner } ==> winner@ == arena_session::subject(
            command,
        ),
        effect matches ArenaCommandEffect::Hide { handle, .. } ==> handle@ == arena_session::subject(
            command,
        ),
        effect matches ArenaCommandEffect::LockThread { item_id, .. } ==> arena_session::subject(command)
            == HandleModel::Remote(item_id),
        effect matches ArenaCommandEffect::VetoThread { handle } ==> handle@ == arena_session::subject(
            command,
        ),
        command matches ArenaCommand::Hide { hidden, cluster_ids, .. } ==> effect matches ArenaCommandEffect::Hide {
            hidden: set,
            cluster_ids: ids,
            ..
        } && set == hidden && ids@ == cluster_ids@,
        command matches ArenaCommand::LockThread { active, .. } ==> effect matches ArenaCommandEffect::LockThread {
            active: set,
            ..
        } && set == active,
        command matches ArenaCommand::Vote { winner, .. } ==> arena_session::subject(command) == winner@,
        command matches ArenaCommand::Hide { handle, .. } ==> arena_session::subject(command) == handle@,
        command matches ArenaCommand::LockThread { handle, .. } ==> arena_session::subject(command)
            == handle@,
        command matches ArenaCommand::VetoThread { handle, .. } ==> arena_session::subject(command)
            == handle@,
{
}

/// Every command says of its turn what it carries: name, revision, epoch, turn and token, whatever it
/// asks for.
pub proof fn every_command_names_its_turn(command: ArenaCommand)
    ensures
        ({
            let header = command.header();
            match command {
                ArenaCommand::Vote {
                    command_id,
                    expected_revision,
                    expected_sampler_epoch,
                    turn_id,
                    action_token,
                    ..
                } | ArenaCommand::Hide {
                    command_id,
                    expected_revision,
                    expected_sampler_epoch,
                    turn_id,
                    action_token,
                    ..
                } | ArenaCommand::LockThread {
                    command_id,
                    expected_revision,
                    expected_sampler_epoch,
                    turn_id,
                    action_token,
                    ..
                } | ArenaCommand::VetoThread {
                    command_id,
                    expected_revision,
                    expected_sampler_epoch,
                    turn_id,
                    action_token,
                    ..
                } => header.command_id == command_id.0@ && header.expected_revision
                    == expected_revision.0 && header.expected_sampler_epoch == expected_sampler_epoch.0
                    && header.turn_id == turn_id.0@ && header.action_token == action_token.0@,
            }
        }),
{
}

/// A refused command is complained about by what the image was to be to it.
pub proof fn refusals_name_what_the_image_was_to_be(command: ArenaCommand)
    ensures
        command is Vote ==> arena_session::subject_label(command) == "winner"@,
        command is Hide ==> arena_session::subject_label(command) == "hidden handle"@,
        command is LockThread ==> arena_session::subject_label(command) == "locked handle"@,
        command is VetoThread ==> arena_session::subject_label(command) == "vetoed handle"@,
{
}

/// A turn that is made of a drawn pair shows that pair, with its looks, in the revision and the epoch it
/// was made for.
pub proof fn turns_show_the_drawn_pair(
    turn: TurnModel,
    revision: u64,
    sampler_epoch: u64,
    pair: (HandleModel, HandleModel),
    visual_keys: Set<Seq<char>>,
)
    requires
        arena_session::forged(turn, revision, sampler_epoch, pair, visual_keys),
    ensures
        turn.pair.0 == pair.0 && turn.pair.1 == pair.1,
        turn.visual_keys == visual_keys,
        turn.revision == revision && turn.sampler_epoch == sampler_epoch,
        turn.id.len() == 26 && turn.action_token.len() == 26,
{
    ids::ulids_have_one_length(turn.id);
    ids::ulids_have_one_length(turn.action_token);
}

/// Where no pair could be drawn nothing is on screen; where one was, it is on screen.
pub proof fn what_was_drawn_is_on_screen(
    current: Option<TurnModel>,
    drawn: Option<&DrawnPair>,
    revision: u64,
    sampler_epoch: u64,
)
    requires
        arena_session::drawn_on_screen(current, drawn, revision, sampler_epoch),
    ensures
        drawn is None <==> current is None,
        drawn is Some ==> current->0.pair == drawn->0.pair@ && current->0.visual_keys
            == drawn->0.visual_keys@ && current->0.revision == revision && current->0.sampler_epoch
            == sampler_epoch,
{
}

} // verus!
