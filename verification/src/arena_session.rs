//! The running comparison: the turn on screen, the turns prepared behind it, and the commands
//! that were already carried out.
use crate::arena_scope::PipelineDisposition;
use crate::ids;
use crate::laws;
use crate::model::{ArenaHandle, AssetId, HandleModel, RemoteItemId};
use crate::runtime;
use crate::runtime::RedirectTarget;
use crate::text;
use crate::textset::TextSet;
use vstd::prelude::*;

verus! {

/// How many turns may be prepared behind the current one.
pub const ARENA_PIPELINE_LIMIT: usize = 6;

/// How many carried out commands are remembered.
pub const ARENA_COMMAND_REPLAY_LIMIT: usize = 512;

/// Counts one up, and stays at the largest number once it is reached.
pub open spec fn bump(n: u64) -> u64 {
    if n == u64::MAX {
        n
    } else {
        (n + 1) as u64
    }
}

/// Counts the changes of the session.
#[derive(Debug, Clone, Copy, PartialEq, Eq, PartialOrd, Ord, Hash, Structural)]
pub struct ArenaRevision(pub u64);

impl ArenaRevision {
    /// The revision that follows.
    pub fn next(self) -> (r: Self)
        ensures
            r.0 == bump(self.0),
    {
        ArenaRevision(self.0.saturating_add(1))
    }

    /// The revision in decimal.
    pub fn to_text(self) -> (r: String)
        ensures
            r@ == text::decimal(self.0 as nat),
    {
        let mut out = String::new();
        text::push_decimal(&mut out, self.0);
        assert(out@ =~= text::decimal(self.0 as nat));
        out
    }
}

/// Counts the changes of what turns are drawn from.
#[derive(Debug, Clone, Copy, PartialEq, Eq, PartialOrd, Ord, Hash, Structural)]
pub struct ArenaSamplerEpoch(pub u64);

impl ArenaSamplerEpoch {
    /// The epoch that follows.
    pub fn next(self) -> (r: Self)
        ensures
            r.0 == bump(self.0),
    {
        ArenaSamplerEpoch(self.0.saturating_add(1))
    }

    /// The epoch in decimal.
    pub fn to_text(self) -> (r: String)
        ensures
            r@ == text::decimal(self.0 as nat),
    {
        let mut out = String::new();
        text::push_decimal(&mut out, self.0);
        assert(out@ =~= text::decimal(self.0 as nat));
        out
    }
}

/// Names a turn.
#[derive(Debug, PartialEq, Eq, Hash)]
pub struct ArenaTurnId(pub String);

/// Shows that a command was made for the turn that it names.
#[derive(Debug, PartialEq, Eq, Hash)]
pub struct ArenaActionToken(pub String);

/// Names a command.
#[derive(Debug, PartialEq, Eq, Hash)]
pub struct ArenaCommandId(pub String);

impl Clone for ArenaTurnId {
    fn clone(&self) -> (r: Self)
        ensures
            r == *self,
    {
        ArenaTurnId(self.0.clone())
    }
}

impl Clone for ArenaActionToken {
    fn clone(&self) -> (r: Self)
        ensures
            r == *self,
    {
        ArenaActionToken(self.0.clone())
    }
}

impl Clone for ArenaCommandId {
    fn clone(&self) -> (r: Self)
        ensures
            r == *self,
    {
        ArenaCommandId(self.0.clone())
    }
}

impl ArenaCommandId {
    /// A fresh name for a command.
    pub fn forge() -> (r: Self)
        ensures
            ids::is_ulid(r.0@),
    {
        ArenaCommandId(ids::forge_id())
    }
}

/// The two images of a turn.
#[derive(Debug, PartialEq, Eq)]
pub struct ArenaPairRef {
    pub left: ArenaHandle,
    pub right: ArenaHandle,
}

impl View for ArenaPairRef {
    type V = (HandleModel, HandleModel);

    open spec fn view(&self) -> (HandleModel, HandleModel) {
        (self.left@, self.right@)
    }
}

impl Clone for ArenaPairRef {
    fn clone(&self) -> (r: Self)
        ensures
            r == *self,
    {
        ArenaPairRef { left: self.left.clone(), right: self.right.clone() }
    }
}

impl ArenaPairRef {
    /// The pair of `left` and `right`.
    pub fn forge(left: ArenaHandle, right: ArenaHandle) -> (r: Self)
        ensures
            r.left == left,
            r.right == right,
    {
        ArenaPairRef { left, right }
    }

    /// The address of the page that shows the pair.
    pub fn href(&self) -> (r: String)
        ensures
            r@ == runtime::pair_address(self.left@, self.right@),
    {
        runtime::pair_href(&self.left, &self.right)
    }

    /// The page that shows the pair.
    pub fn target(&self) -> (r: RedirectTarget)
        ensures
            r == (RedirectTarget::ArenaPair { left: self.left, right: self.right }),
    {
        RedirectTarget::ArenaPair { left: self.left.clone(), right: self.right.clone() }
    }

    /// Whether `handle` is one of the two.
    pub fn contains(&self, handle: &ArenaHandle) -> (r: bool)
        ensures
            r == (self@.0 == handle@ || self@.1 == handle@),
    {
        self.left.same(handle) || self.right.same(handle)
    }

    /// Whether both are the same pair, side by side.
    pub fn same(&self, other: &ArenaPairRef) -> (r: bool)
        ensures
            r == (self@ == other@),
    {
        self.left.same(&other.left) && self.right.same(&other.right)
    }
}

/// A pair that was drawn, with the looks of its images.
#[derive(Debug)]
pub struct DrawnPair {
    pub pair: ArenaPairRef,
    pub visual_keys: TextSet,
}

/// One comparison that is or will be on screen.
#[derive(Debug)]
pub struct ArenaTurn {
    id: ArenaTurnId,
    action_token: ArenaActionToken,
    revision: ArenaRevision,
    sampler_epoch: ArenaSamplerEpoch,
    pair: ArenaPairRef,
    visual_keys: TextSet,
}

/// What a turn holds.
#[verifier::ext_equal]
pub struct TurnModel {
    pub id: Seq<char>,
    pub action_token: Seq<char>,
    pub revision: u64,
    pub sampler_epoch: u64,
    pub pair: (HandleModel, HandleModel),
    pub visual_keys: Set<Seq<char>>,
}

impl TurnModel {
    /// The turn as of a revision and an epoch.
    pub open spec fn at(self, revision: u64, sampler_epoch: u64) -> TurnModel {
        TurnModel { revision, sampler_epoch, ..self }
    }
}

impl View for ArenaTurn {
    type V = TurnModel;

    closed spec fn view(&self) -> TurnModel {
        TurnModel {
            id: self.id.0@,
            action_token: self.action_token.0@,
            revision: self.revision.0,
            sampler_epoch: self.sampler_epoch.0,
            pair: self.pair@,
            visual_keys: self.visual_keys@,
        }
    }
}

impl Clone for ArenaTurn {
    fn clone(&self) -> (r: Self)
        ensures
            r@ == self@,
    {
        ArenaTurn {
            id: self.id.clone(),
            action_token: self.action_token.clone(),
            revision: self.revision,
            sampler_epoch: self.sampler_epoch,
            pair: self.pair.clone(),
            visual_keys: self.visual_keys.clone(),
        }
    }
}

/// A turn made of a drawn pair, with fresh names.
pub open spec fn forged(
    turn: TurnModel,
    revision: u64,
    sampler_epoch: u64,
    pair: (HandleModel, HandleModel),
    visual_keys: Set<Seq<char>>,
) -> bool {
    &&& ids::is_ulid(turn.id)
    &&& ids::is_ulid(turn.action_token)
    &&& turn.revision == revision
    &&& turn.sampler_epoch == sampler_epoch
    &&& turn.pair == pair
    &&& turn.visual_keys == visual_keys
}

impl ArenaTurn {
    /// A turn made of a drawn pair.
    pub fn forge(revision: ArenaRevision, sampler_epoch: ArenaSamplerEpoch, drawn: &DrawnPair) -> (r:
        Self)
        ensures
            forged(r@, revision.0, sampler_epoch.0, drawn.pair@, drawn.visual_keys@),
    {
        ArenaTurn::from_pair_ref(
            revision,
            sampler_epoch,
            drawn.pair.clone(),
            drawn.visual_keys.clone(),
        )
    }

    /// A turn made of a pair whose looks are `visual_keys`.
    pub fn from_pair_ref(
        revision: ArenaRevision,
        sampler_epoch: ArenaSamplerEpoch,
        pair: ArenaPairRef,
        visual_keys: TextSet,
    ) -> (r: Self)
        ensures
            forged(r@, revision.0, sampler_epoch.0, pair@, visual_keys@),
    {
        ArenaTurn {
            id: ArenaTurnId(ids::forge_id()),
            action_token: ArenaActionToken(ids::forge_id()),
            revision,
            sampler_epoch,
            pair,
            visual_keys,
        }
    }

    /// Moves the turn to a revision and an epoch.
    pub fn activate_at(&mut self, revision: ArenaRevision, sampler_epoch: ArenaSamplerEpoch)
        ensures
            final(self)@ == old(self)@.at(revision.0, sampler_epoch.0),
    {
        self.revision = revision;
        self.sampler_epoch = sampler_epoch;
    }

    /// The name of the turn.
    pub fn id(&self) -> (r: &ArenaTurnId)
        ensures
            r.0@ == self@.id,
    {
        &self.id
    }

    /// The token that commands for the turn carry.
    pub fn action_token(&self) -> (r: &ArenaActionToken)
        ensures
            r.0@ == self@.action_token,
    {
        &self.action_token
    }

    /// The revision that the turn belongs to.
    pub fn revision(&self) -> (r: ArenaRevision)
        ensures
            r.0 == self@.revision,
    {
        self.revision
    }

    /// The epoch that the turn was drawn in.
    pub fn sampler_epoch(&self) -> (r: ArenaSamplerEpoch)
        ensures
            r.0 == self@.sampler_epoch,
    {
        self.sampler_epoch
    }

    /// The two images.
    pub fn pair(&self) -> (r: &ArenaPairRef)
        ensures
            r@ == self@.pair,
    {
        &self.pair
    }

    /// The looks of the two images.
    pub fn visual_keys(&self) -> (r: &TextSet)
        ensures
            r@ == self@.visual_keys,
    {
        &self.visual_keys
    }

    /// The address of the page that shows the turn.
    pub fn href(&self) -> (r: String)
        ensures
            r@ == runtime::pair_address(self@.pair.0, self@.pair.1),
    {
        self.pair.href()
    }

    /// The page that shows the turn.
    pub fn target(&self) -> (r: RedirectTarget)
        ensures
            shows(r, self@.pair),
    {
        self.pair.target()
    }
}

/// The target is the page of a pair.
pub open spec fn shows(target: RedirectTarget, pair: (HandleModel, HandleModel)) -> bool {
    target matches RedirectTarget::ArenaPair { left, right } && left@ == pair.0 && right@ == pair.1
}

/// What an arena page shows.
#[derive(Debug)]
pub struct ArenaPageState {
    pub current: Option<ArenaTurn>,
    pub lookahead: Option<ArenaTurn>,
    pub redirect: Option<RedirectTarget>,
}

/// What a user asks of the current turn.
#[derive(Debug)]
pub enum ArenaCommand {
    Vote {
        command_id: ArenaCommandId,
        expected_revision: ArenaRevision,
        expected_sampler_epoch: ArenaSamplerEpoch,
        turn_id: ArenaTurnId,
        action_token: ArenaActionToken,
        winner: ArenaHandle,
    },
    Hide {
        command_id: ArenaCommandId,
        expected_revision: ArenaRevision,
        expected_sampler_epoch: ArenaSamplerEpoch,
        turn_id: ArenaTurnId,
        action_token: ArenaActionToken,
        handle: ArenaHandle,
        hidden: bool,
        cluster_ids: Vec<RemoteItemId>,
    },
    LockThread {
        command_id: ArenaCommandId,
        expected_revision: ArenaRevision,
        expected_sampler_epoch: ArenaSamplerEpoch,
        turn_id: ArenaTurnId,
        action_token: ArenaActionToken,
        handle: ArenaHandle,
        active: bool,
    },
    VetoThread {
        command_id: ArenaCommandId,
        expected_revision: ArenaRevision,
        expected_sampler_epoch: ArenaSamplerEpoch,
        turn_id: ArenaTurnId,
        action_token: ArenaActionToken,
        handle: ArenaHandle,
    },
}

/// What a command says of the turn that it was made for.
#[verifier::ext_equal]
pub struct CommandHeader {
    pub command_id: Seq<char>,
    pub expected_revision: u64,
    pub expected_sampler_epoch: u64,
    pub turn_id: Seq<char>,
    pub action_token: Seq<char>,
}

impl ArenaCommand {
    /// What the command says of the turn that it was made for.
    pub open spec fn header(self) -> CommandHeader {
        match self {
            ArenaCommand::Vote {
                command_id,
                expected_revision,
                expected_sampler_epoch,
                turn_id,
                action_token,
                winner,
            } => CommandHeader {
                command_id: command_id.0@,
                expected_revision: expected_revision.0,
                expected_sampler_epoch: expected_sampler_epoch.0,
                turn_id: turn_id.0@,
                action_token: action_token.0@,
            },
            ArenaCommand::Hide {
                command_id,
                expected_revision,
                expected_sampler_epoch,
                turn_id,
                action_token,
                handle,
                hidden,
                cluster_ids,
            } => CommandHeader {
                command_id: command_id.0@,
                expected_revision: expected_revision.0,
                expected_sampler_epoch: expected_sampler_epoch.0,
                turn_id: turn_id.0@,
                action_token: action_token.0@,
            },
            ArenaCommand::LockThread {
                command_id,
                expected_revision,
                expected_sampler_epoch,
                turn_id,
                action_token,
                handle,
                active,
            } => CommandHeader {
                command_id: command_id.0@,
                expected_revision: expected_revision.0,
                expected_sampler_epoch: expected_sampler_epoch.0,
                turn_id: turn_id.0@,
                action_token: action_token.0@,
            },
            ArenaCommand::VetoThread {
                command_id,
                expected_revision,
                expected_sampler_epoch,
                turn_id,
                action_token,
                handle,
            } => CommandHeader {
                command_id: command_id.0@,
                expected_revision: expected_revision.0,
                expected_sampler_epoch: expected_sampler_epoch.0,
                turn_id: turn_id.0@,
                action_token: action_token.0@,
            },
        }
    }

    /// The name of the command.
    pub fn command_id(&self) -> (r: &ArenaCommandId)
        ensures
            r.0@ == self.header().command_id,
    {
        match self {
            ArenaCommand::Vote { command_id, .. }
            | ArenaCommand::Hide { command_id, .. }
            | ArenaCommand::LockThread { command_id, .. }
            | ArenaCommand::VetoThread { command_id, .. } => command_id,
        }
    }

    /// The revision that the command was made for.
    pub fn expected_revision(&self) -> (r: ArenaRevision)
        ensures
            r.0 == self.header().expected_revision,
    {
        match self {
            ArenaCommand::Vote { expected_revision, .. }
            | ArenaCommand::Hide { expected_revision, .. }
            | ArenaCommand::LockThread { expected_revision, .. }
            | ArenaCommand::VetoThread { expected_revision, .. } => *expected_revision,
        }
    }

    /// The epoch that the command was made for.
    pub fn expected_sampler_epoch(&self) -> (r: ArenaSamplerEpoch)
        ensures
            r.0 == self.header().expected_sampler_epoch,
    {
        match self {
            ArenaCommand::Vote { expected_sampler_epoch, .. }
            | ArenaCommand::Hide { expected_sampler_epoch, .. }
            | ArenaCommand::LockThread { expected_sampler_epoch, .. }
            | ArenaCommand::VetoThread { expected_sampler_epoch, .. } => *expected_sampler_epoch,
        }
    }

    /// The turn that the command was made for.
    pub fn turn_id(&self) -> (r: &ArenaTurnId)
        ensures
            r.0@ == self.header().turn_id,
    {
        match self {
            ArenaCommand::Vote { turn_id, .. }
            | ArenaCommand::Hide { turn_id, .. }
            | ArenaCommand::LockThread { turn_id, .. }
            | ArenaCommand::VetoThread { turn_id, .. } => turn_id,
        }
    }

    /// The token of the turn that the command was made for.
    pub fn action_token(&self) -> (r: &ArenaActionToken)
        ensures
            r.0@ == self.header().action_token,
    {
        match self {
            ArenaCommand::Vote { action_token, .. }
            | ArenaCommand::Hide { action_token, .. }
            | ArenaCommand::LockThread { action_token, .. }
            | ArenaCommand::VetoThread { action_token, .. } => action_token,
        }
    }
}

/// What became of a command.
#[derive(Debug, Clone, Copy, PartialEq, Eq, Structural)]
pub enum ArenaCommandStatus {
    Applied,
    Replayed,
    Stale,
}

/// The answer to a command.
#[derive(Debug)]
pub struct ArenaCommandOutcome {
    pub status: ArenaCommandStatus,
    pub current: Option<ArenaTurn>,
}

/// How soon a change of what turns are drawn from has to show.
#[derive(Debug, Clone, Copy, PartialEq, Eq, Structural)]
pub enum SamplerInvalidation {
    Eventual,
    Immediate,
}

/// How the session goes on after a command.
#[derive(Debug, PartialEq, Eq)]
pub enum ArenaCommandAdvance {
    Preserve,
    Flush,
    Reset { local_anchor: Option<AssetId> },
}

impl ArenaCommandAdvance {
    /// How the session goes on, given what becomes of the prepared turns.
    pub fn from_disposition(
        disposition: PipelineDisposition,
        local_anchor: Option<AssetId>,
    ) -> (r: Self)
        ensures
            r == match disposition {
                PipelineDisposition::Preserve => ArenaCommandAdvance::Preserve,
                PipelineDisposition::Flush => ArenaCommandAdvance::Flush,
                PipelineDisposition::Reset => ArenaCommandAdvance::Reset { local_anchor },
            },
    {
        match disposition {
            PipelineDisposition::Preserve => ArenaCommandAdvance::Preserve,
            PipelineDisposition::Flush => ArenaCommandAdvance::Flush,
            PipelineDisposition::Reset => ArenaCommandAdvance::Reset { local_anchor },
        }
    }
}

/// Why a command that was made for the current turn is refused.
#[derive(Debug, PartialEq, Eq)]
pub enum ArenaCommandError {
    /// The named image is not one of the two.
    NotInTurn { label: &'static str },
    /// Only threads of outside images can be locked.
    LockNeedsRemote,
}

impl ArenaCommandError {
    /// What is shown of the refusal.
    pub open spec fn spec_message(self) -> Seq<char> {
        match self {
            ArenaCommandError::NotInTurn { label } => label@
                + " is not part of the active arena turn"@,
            ArenaCommandError::LockNeedsRemote => "thread lock requires a remote arena handle"@,
        }
    }

    /// What is shown of the refusal.
    pub fn message(&self) -> (r: String)
        ensures
            r@ == self.spec_message(),
    {
        match self {
            ArenaCommandError::NotInTurn { label } => {
                let mut out = (*label).to_owned();
                out.append(" is not part of the active arena turn");
                out
            },
            ArenaCommandError::LockNeedsRemote => {
                "thread lock requires a remote arena handle".to_owned()
            },
        }
    }
}

/// Refuses an image that is not one of the two.
pub fn ensure_pair_member(pair: &ArenaPairRef, handle: &ArenaHandle, label: &'static str) -> (r:
    Result<(), ArenaCommandError>)
    ensures
        r == (if pair@.0 == handle@ || pair@.1 == handle@ {
            Ok(())
        } else {
            Err(ArenaCommandError::NotInTurn { label })
        }),
{
    if pair.contains(handle) {
        Ok(())
    } else {
        Err(ArenaCommandError::NotInTurn { label })
    }
}

/// What has to be done to the collection and its sources for a command.
#[derive(Debug)]
pub enum ArenaCommandEffect {
    Vote { winner: ArenaHandle },
    Hide { handle: ArenaHandle, hidden: bool, cluster_ids: Vec<RemoteItemId> },
    LockThread { item_id: RemoteItemId, active: bool },
    VetoThread { handle: ArenaHandle },
}

/// The image that a command names.
pub open spec fn subject(command: ArenaCommand) -> HandleModel {
    match command {
        ArenaCommand::Vote { winner, .. } => winner@,
        ArenaCommand::Hide { handle, .. } => handle@,
        ArenaCommand::LockThread { handle, .. } => handle@,
        ArenaCommand::VetoThread { handle, .. } => handle@,
    }
}

/// What the image is to the command.
pub open spec fn subject_label(command: ArenaCommand) -> Seq<char> {
    match command {
        ArenaCommand::Vote { .. } => "winner"@,
        ArenaCommand::Hide { .. } => "hidden handle"@,
        ArenaCommand::LockThread { .. } => "locked handle"@,
        ArenaCommand::VetoThread { .. } => "vetoed handle"@,
    }
}

/// The effect is the one that the command asks for.
pub open spec fn carries_out(effect: ArenaCommandEffect, command: ArenaCommand) -> bool {
    match command {
        ArenaCommand::Vote { winner, .. } => effect matches ArenaCommandEffect::Vote { winner: w }
            && w == winner,
        ArenaCommand::Hide { handle, hidden, cluster_ids, .. } => effect matches ArenaCommandEffect::Hide {
            handle: h,
            hidden: flag,
            cluster_ids: ids,
        } && h == handle && flag == hidden && ids@ == cluster_ids@,
        ArenaCommand::LockThread { handle, active, .. } => effect matches ArenaCommandEffect::LockThread {
            item_id,
            active: flag,
        } && handle@ == HandleModel::Remote(item_id) && flag == active,
        ArenaCommand::VetoThread { handle, .. } => effect matches ArenaCommandEffect::VetoThread {
            handle: h,
        } && h == handle,
    }
}

/// What has to be done for a command on the pair `current_pair`: the command has to name one of
/// the two images, and a lock needs an outside image.
pub fn devour_arena_command_effect(command: &ArenaCommand, current_pair: &ArenaPairRef) -> (r: Result<
    ArenaCommandEffect,
    ArenaCommandError,
>)
    ensures
        (current_pair@.0 != subject(*command) && current_pair@.1 != subject(*command)) == (r matches Err(
            ArenaCommandError::NotInTurn { label },
        ) && label@ == subject_label(*command)),
        (r matches Err(ArenaCommandError::LockNeedsRemote)) == ((current_pair@.0 == subject(*command)
            || current_pair@.1 == subject(*command)) && command is LockThread && subject(
            *command,
        ) is Local),
        r matches Ok(effect) ==> carries_out(effect, *command),
        r matches Err(ArenaCommandError::NotInTurn { .. }) ==> current_pair@.0 != subject(*command)
            && current_pair@.1 != subject(*command),
{
    match command {
        ArenaCommand::Vote { winner, .. } => {
            ensure_pair_member(current_pair, winner, "winner")?;
            Ok(ArenaCommandEffect::Vote { winner: winner.clone() })
        },
        ArenaCommand::Hide { handle, hidden, cluster_ids, .. } => {
            ensure_pair_member(current_pair, handle, "hidden handle")?;
            let mut ids: Vec<RemoteItemId> = Vec::new();
            let mut i: usize = 0;
            while i < cluster_ids.len()
                invariant
                    i <= cluster_ids.len(),
                    ids@ == cluster_ids@.take(i as int),
                decreases cluster_ids.len() - i,
            {
                ids.push(cluster_ids[i]);
                assert(cluster_ids@.take(i + 1) =~= cluster_ids@.take(i as int).push(
                    cluster_ids@[i as int],
                ));
                i += 1;
            }
            assert(cluster_ids@.take(i as int) =~= cluster_ids@);
            Ok(ArenaCommandEffect::Hide { handle: handle.clone(), hidden: *hidden, cluster_ids: ids })
        },
        ArenaCommand::LockThread { handle, active, .. } => {
            ensure_pair_member(current_pair, handle, "locked handle")?;
            match handle {
                ArenaHandle::Remote(item_id) => Ok(
                    ArenaCommandEffect::LockThread { item_id: *item_id, active: *active },
                ),
                ArenaHandle::Local(_) => Err(ArenaCommandError::LockNeedsRemote),
            }
        },
        ArenaCommand::VetoThread { handle, .. } => {
            ensure_pair_member(current_pair, handle, "vetoed handle")?;
            Ok(ArenaCommandEffect::VetoThread { handle: handle.clone() })
        },
    }
}

/// The running comparison.
#[derive(Debug)]
pub struct ArenaSessionRuntime {
    revision: ArenaRevision,
    sampler_epoch: ArenaSamplerEpoch,
    current: Option<ArenaTurn>,
    pipeline: Vec<ArenaTurn>,
    applied: Vec<ArenaCommandId>,
}

/// What the running comparison holds: the turn on screen, the turns behind it in order, and the
/// remembered commands from the oldest to the newest.
#[verifier::ext_equal]
pub struct SessionModel {
    pub revision: u64,
    pub sampler_epoch: u64,
    pub current: Option<TurnModel>,
    pub pipeline: Seq<TurnModel>,
    pub applied: Seq<Seq<char>>,
}

/// The turns moved to a revision and an epoch.
pub open spec fn all_at(turns: Seq<TurnModel>, revision: u64, sampler_epoch: u64) -> Seq<TurnModel> {
    turns.map_values(|turn: TurnModel| turn.at(revision, sampler_epoch))
}

/// A turn moved to a revision and an epoch, if there is one.
pub open spec fn maybe_at(turn: Option<TurnModel>, revision: u64, sampler_epoch: u64) -> Option<
    TurnModel,
> {
    match turn {
        None => None,
        Some(held) => Some(held.at(revision, sampler_epoch)),
    }
}

/// The newest of `applied`, as many as are remembered.
pub open spec fn newest(applied: Seq<Seq<char>>) -> Seq<Seq<char>> {
    if applied.len() > ARENA_COMMAND_REPLAY_LIMIT {
        applied.skip(applied.len() - ARENA_COMMAND_REPLAY_LIMIT)
    } else {
        applied
    }
}

/// The remembered commands after one more was carried out.
pub open spec fn remembering(applied: Seq<Seq<char>>, command_id: Seq<char>) -> Seq<Seq<char>> {
    if applied.contains(command_id) {
        newest(applied)
    } else {
        newest(applied.push(command_id))
    }
}

impl SessionModel {
    /// Every turn belongs to the session's revision and epoch, at most as many turns are prepared
    /// as may be, and each remembered command is remembered once.
    pub open spec fn wf(self) -> bool {
        &&& self.current matches Some(turn) ==> turn == turn.at(self.revision, self.sampler_epoch)
        &&& forall|i: int|
            0 <= i < self.pipeline.len() ==> #[trigger] self.pipeline[i] == self.pipeline[i].at(
                self.revision,
                self.sampler_epoch,
            )
        &&& self.pipeline.len() <= ARENA_PIPELINE_LIMIT
        &&& self.applied.no_duplicates()
        &&& self.applied.len() <= ARENA_COMMAND_REPLAY_LIMIT
    }

    /// Without a turn, one revision on.
    pub open spec fn shattered(self) -> SessionModel {
        SessionModel {
            revision: bump(self.revision),
            current: None,
            pipeline: Seq::empty(),
            ..self
        }
    }

    /// Without a turn, one revision and one epoch on.
    pub open spec fn sampler_invalidated(self) -> SessionModel {
        SessionModel { sampler_epoch: bump(self.sampler_epoch), ..self }.shattered()
    }

    /// One revision on, with all turns.
    pub open spec fn revision_advanced(self) -> SessionModel {
        SessionModel {
            revision: bump(self.revision),
            current: maybe_at(self.current, bump(self.revision), self.sampler_epoch),
            pipeline: all_at(self.pipeline, bump(self.revision), self.sampler_epoch),
            ..self
        }
    }

    /// With `turn` on screen.
    pub open spec fn current_installed(self, turn: TurnModel) -> SessionModel {
        SessionModel { current: Some(turn.at(self.revision, self.sampler_epoch)), ..self }
    }

    /// One revision and one epoch on, with the turn on screen and none behind it.
    pub open spec fn sampler_flushed(self) -> SessionModel {
        SessionModel {
            revision: bump(self.revision),
            sampler_epoch: bump(self.sampler_epoch),
            current: maybe_at(self.current, bump(self.revision), bump(self.sampler_epoch)),
            pipeline: Seq::empty(),
            ..self
        }
    }

    /// One revision on, with `turn` on screen and none behind it.
    pub open spec fn reset_to(self, turn: Option<TurnModel>) -> SessionModel {
        SessionModel {
            revision: bump(self.revision),
            current: maybe_at(turn, bump(self.revision), self.sampler_epoch),
            pipeline: Seq::empty(),
            ..self
        }
    }

    /// One revision and one epoch on, with `turn` on screen and none behind it.
    pub open spec fn sampler_reset_to(self, turn: Option<TurnModel>) -> SessionModel {
        SessionModel { sampler_epoch: bump(self.sampler_epoch), ..self }.reset_to(turn)
    }

    /// With the first prepared turn on screen, if there is one.
    pub open spec fn pipeline_promoted(self) -> SessionModel {
        if self.pipeline.len() == 0 {
            self
        } else {
            SessionModel {
                current: Some(self.pipeline[0].at(self.revision, self.sampler_epoch)),
                pipeline: self.pipeline.skip(1),
                ..self
            }
        }
    }

    /// With one more command remembered.
    pub open spec fn remembered(self, command_id: Seq<char>) -> SessionModel {
        SessionModel { applied: remembering(self.applied, command_id), ..self }
    }

    /// With only the prepared turns that have a name in `known`.
    pub open spec fn pipeline_reconciled(self, known: Set<Seq<char>>) -> SessionModel {
        SessionModel { pipeline: self.pipeline.filter(|turn: TurnModel| known.contains(turn.id)), ..self }
    }

    /// With only the prepared turns of this epoch that `live` says can still be shown.
    pub open spec fn pipeline_culled(self, live: Seq<bool>) -> SessionModel {
        SessionModel {
            pipeline: kept(
                self.pipeline,
                Seq::new(
                    self.pipeline.len(),
                    |i: int| live[i] && self.pipeline[i].sampler_epoch == self.sampler_epoch,
                ),
            ),
            ..self
        }
    }

    /// Without the turns that can no longer be shown: with the turn on screen go all.
    pub open spec fn culled(self, current_live: bool, live: Seq<bool>) -> SessionModel {
        if self.current matches Some(turn) && (turn.sampler_epoch != self.sampler_epoch || !current_live) {
            self.shattered()
        } else {
            self.pipeline_culled(live)
        }
    }

    /// With one more prepared turn.
    pub open spec fn prepared(self, turn: TurnModel) -> SessionModel {
        SessionModel { pipeline: self.pipeline.push(turn), ..self }
    }

    /// The looks of all images on screen or behind it.
    pub open spec fn shown_looks(self) -> Set<Seq<char>> {
        Set::new(
            |key: Seq<char>|
                {
                    ||| self.current matches Some(turn) && turn.visual_keys.contains(key)
                    ||| exists|i: int|
                        0 <= i < self.pipeline.len() && #[trigger] self.pipeline[i].visual_keys.contains(key)
                },
        )
    }

    /// A command was made for the turn on screen.
    pub open spec fn expects(self, header: CommandHeader) -> bool {
        self.current matches Some(turn) && {
            &&& header.expected_revision == self.revision
            &&& header.expected_sampler_epoch == self.sampler_epoch
            &&& turn.sampler_epoch == self.sampler_epoch
            &&& header.turn_id == turn.id
            &&& header.action_token == turn.action_token
        }
    }
}

/// The items whose flag is set, in order.
pub open spec fn kept<T>(items: Seq<T>, flags: Seq<bool>) -> Seq<T>
    decreases items.len(),
{
    if items.len() == 0 {
        items
    } else {
        let before = kept(items.drop_last(), flags.drop_last());
        if flags.last() {
            before.push(items.last())
        } else {
            before
        }
    }
}

proof fn lemma_kept_len<T>(items: Seq<T>, flags: Seq<bool>)
    ensures
        kept(items, flags).len() <= items.len(),
    decreases items.len(),
{
    if items.len() > 0 {
        lemma_kept_len(items.drop_last(), flags.drop_last());
    }
}

proof fn lemma_kept_members<T>(items: Seq<T>, flags: Seq<bool>, i: int)
    requires
        0 <= i < kept(items, flags).len(),
    ensures
        items.contains(kept(items, flags)[i]),
    decreases items.len(),
{
    if items.len() > 0 {
        let before = kept(items.drop_last(), flags.drop_last());
        if i < before.len() {
            lemma_kept_members(items.drop_last(), flags.drop_last(), i);
            let j = choose|j: int| 0 <= j < items.len() - 1 && items.drop_last()[j] == before[i];
            assert(items[j] == before[i]);
        } else {
            assert(items[items.len() - 1] == items.last());
        }
    }
}

proof fn lemma_kept_is_filter<T>(items: Seq<T>, flags: Seq<bool>, pred: spec_fn(T) -> bool)
    requires
        flags.len() == items.len(),
        forall|i: int| 0 <= i < items.len() ==> #[trigger] flags[i] == pred(items[i]),
    ensures
        kept(items, flags) == items.filter(pred),
    decreases items.len(),
{
    reveal(Seq::filter);
    if items.len() > 0 {
        assert forall|i: int| 0 <= i < items.drop_last().len() implies #[trigger] flags.drop_last()[i]
            == pred(items.drop_last()[i]) by {
            assert(flags[i] == pred(items[i]));
        }
        lemma_kept_is_filter(items.drop_last(), flags.drop_last(), pred);
        assert(flags[items.len() - 1] == pred(items.last()));
    }
}

/// The turns that `turns` holds.
pub open spec fn turn_models(turns: Seq<ArenaTurn>) -> Seq<TurnModel> {
    turns.map_values(|turn: ArenaTurn| turn@)
}

/// The names that `commands` holds.
pub open spec fn command_names(commands: Seq<ArenaCommandId>) -> Seq<Seq<char>> {
    commands.map_values(|command: ArenaCommandId| command.0@)
}

/// Keeps the turns whose flag is set.
fn retain_turns(turns: &mut Vec<ArenaTurn>, flags: &Vec<bool>)
    requires
        flags.len() == old(turns).len(),
    ensures
        turn_models(final(turns)@) == kept(turn_models(old(turns)@), flags@),
{
    let ghost all = turn_models(turns@);
    let mut at: usize = 0;
    let mut i: usize = 0;
    proof {
        assert(all.take(0) =~= Seq::<TurnModel>::empty());
        assert(all.skip(0) =~= all);
        assert(kept(all.take(0), flags@.take(0)) =~= Seq::<TurnModel>::empty());
        assert(turn_models(turns@) =~= kept(all.take(0), flags@.take(0)) + all.skip(0));
    }
    while i < flags.len()
        invariant
            i <= flags.len(),
            flags.len() == all.len(),
            at == kept(all.take(i as int), flags@.take(i as int)).len(),
            turn_models(turns@) == kept(all.take(i as int), flags@.take(i as int)) + all.skip(i as int),
            turns.len() == at + (flags.len() - i),
        decreases flags.len() - i,
    {
        let ghost before = kept(all.take(i as int), flags@.take(i as int));
        proof {
            assert(all.take(i + 1).drop_last() =~= all.take(i as int));
            assert(flags@.take(i + 1).drop_last() =~= flags@.take(i as int));
            assert(all.take(i + 1).last() == all[i as int]);
            assert(flags@.take(i + 1).last() == flags@[i as int]);
        }
        if flags[i] {
            proof {
                assert(before + all.skip(i as int) =~= before.push(all[i as int]) + all.skip(i + 1));
            }
            at += 1;
        } else {
            let ghost held = turns@;
            let _dropped = turns.remove(at);
            proof {
                assert(turn_models(turns@) =~= turn_models(held).remove(at as int));
                assert((before + all.skip(i as int)).remove(before.len() as int) =~= before + all.skip(
                    i + 1,
                ));
            }
        }
        i += 1;
    }
    proof {
        assert(all.take(i as int) =~= all);
        assert(flags@.take(i as int) =~= flags@);
        assert(kept(all, flags@) + all.skip(i as int) =~= kept(all, flags@));
    }
}

impl View for ArenaSessionRuntime {
    type V = SessionModel;

    closed spec fn view(&self) -> SessionModel {
        SessionModel {
            revision: self.revision.0,
            sampler_epoch: self.sampler_epoch.0,
            current: match self.current {
                None => None,
                Some(turn) => Some(turn@),
            },
            pipeline: turn_models(self.pipeline@),
            applied: command_names(self.applied@),
        }
    }
}

/// What a command is answered before anything is done for it.
#[derive(Debug)]
pub enum ArenaCommandAdmission {
    /// It was already carried out.
    Replayed,
    /// It was not made for the turn on screen.
    Stale,
    /// It is to be carried out on this pair.
    Accepted { pair: ArenaPairRef },
}

/// What a page request waits for.
#[derive(Debug)]
pub enum ArenaPageStep {
    /// The request is sent on.
    Redirect { target: RedirectTarget },
    /// A turn has to be made of the requested pair.
    Mint { pair: ArenaPairRef },
    /// The session can be shown as it is.
    Show,
}

/// What the session waits for after a command.
#[derive(Debug)]
pub enum ArenaAdvanceStep {
    /// Nothing.
    Settled,
    /// A pair for the screen.
    SampleNext,
    /// A pair for the screen, with this image of the collection if it is given, after which
    /// everything is drawn anew.
    SampleReset { local_anchor: Option<AssetId> },
}

impl ArenaSessionRuntime {
    /// A session without a turn.
    pub fn new() -> (r: Self)
        ensures
            r@.wf(),
            r@.revision == 0,
            r@.sampler_epoch == 0,
            r@.current is None,
            r@.pipeline == Seq::<TurnModel>::empty(),
            r@.applied == Seq::<Seq<char>>::empty(),
    {
        let r = ArenaSessionRuntime {
            revision: ArenaRevision(0),
            sampler_epoch: ArenaSamplerEpoch(0),
            current: None,
            pipeline: Vec::new(),
            applied: Vec::new(),
        };
        assert(r@.pipeline =~= Seq::<TurnModel>::empty());
        assert(r@.applied =~= Seq::<Seq<char>>::empty());
        r
    }

    /// The session's revision.
    pub fn revision(&self) -> (r: ArenaRevision)
        ensures
            r.0 == self@.revision,
    {
        self.revision
    }

    /// The session's epoch.
    pub fn sampler_epoch(&self) -> (r: ArenaSamplerEpoch)
        ensures
            r.0 == self@.sampler_epoch,
    {
        self.sampler_epoch
    }

    /// The turn on screen.
    pub fn current(&self) -> (r: Option<ArenaTurn>)
        ensures
            self@.current == match r {
                None => None,
                Some(turn) => Some(turn@),
            },
    {
        match &self.current {
            None => None,
            Some(turn) => Some(turn.clone()),
        }
    }

    /// The prepared turns.
    pub fn pipeline(&self) -> (r: &Vec<ArenaTurn>)
        ensures
            turn_models(r@) == self@.pipeline,
    {
        &self.pipeline
    }

    /// The page of the turn on screen, or the arena without a turn.
    pub fn current_target(&self) -> (r: RedirectTarget)
        ensures
            match self@.current {
                None => r is ArenaRoot,
                Some(turn) => shows(r, turn.pair),
            },
    {
        match &self.current {
            None => RedirectTarget::ArenaRoot,
            Some(turn) => turn.target(),
        }
    }

    /// Drops all turns.
    pub fn shatter(&mut self)
        ensures
            final(self)@ == old(self)@.shattered(),
    {
        self.revision = self.revision.next();
        self.current = None;
        self.pipeline.clear();
        assert(self@ =~= old(self)@.shattered());
    }

    /// Drops all turns because turns are drawn differently now.
    pub fn invalidate_sampler(&mut self)
        ensures
            final(self)@ == old(self)@.sampler_invalidated(),
    {
        self.sampler_epoch = self.sampler_epoch.next();
        self.shatter();
        assert(self@ =~= old(self)@.sampler_invalidated());
    }

    /// Drops all turns where turns are drawn differently now and that has to show at once.
    pub fn apply_sampler_invalidation(&mut self, invalidation: SamplerInvalidation)
        ensures
            final(self)@ == match invalidation {
                SamplerInvalidation::Immediate => old(self)@.sampler_invalidated(),
                SamplerInvalidation::Eventual => old(self)@,
            },
    {
        if matches!(invalidation, SamplerInvalidation::Immediate) {
            self.invalidate_sampler();
        }
    }

    /// Moves the session and its turns one revision on.
    pub fn advance_revision(&mut self)
        ensures
            final(self)@ == old(self)@.revision_advanced(),
    {
        self.revision = self.revision.next();
        let revision = self.revision;
        let sampler_epoch = self.sampler_epoch;
        match self.current.take() {
            None => {},
            Some(mut turn) => {
                turn.activate_at(revision, sampler_epoch);
                self.current = Some(turn);
            },
        }
        let ghost before = *self;
        let ghost turns = self.pipeline@;
        let mut i: usize = 0;
        while i < self.pipeline.len()
            invariant
                i <= self.pipeline.len(),
                self.pipeline.len() == turns.len(),
                self.revision == revision,
                self.sampler_epoch == sampler_epoch,
                self.current == before.current,
                self.applied == before.applied,
                forall|j: int|
                    0 <= j < i ==> (#[trigger] self.pipeline@[j])@ == turns[j]@.at(
                        revision.0,
                        sampler_epoch.0,
                    ),
                forall|j: int| i <= j < turns.len() ==> #[trigger] self.pipeline@[j] == turns[j],
            decreases self.pipeline.len() - i,
        {
            self.pipeline[i].activate_at(revision, sampler_epoch);
            i += 1;
        }
        assert(self@.pipeline =~= all_at(turn_models(turns), revision.0, sampler_epoch.0));
        assert(self@ =~= old(self)@.revision_advanced());
    }

    /// Puts `turn` on screen.
    pub fn install_current(&mut self, turn: ArenaTurn)
        ensures
            final(self)@ == old(self)@.current_installed(turn@),
    {
        let mut turn = turn;
        turn.activate_at(self.revision, self.sampler_epoch);
        self.current = Some(turn);
    }

    /// Keeps the turn on screen and drops those behind it, because turns are drawn differently
    /// now.
    pub fn flush_sampler(&mut self)
        ensures
            final(self)@ == old(self)@.sampler_flushed(),
    {
        self.sampler_epoch = self.sampler_epoch.next();
        self.revision = self.revision.next();
        let revision = self.revision;
        let sampler_epoch = self.sampler_epoch;
        match self.current.take() {
            None => {},
            Some(mut turn) => {
                turn.activate_at(revision, sampler_epoch);
                self.current = Some(turn);
            },
        }
        self.pipeline.clear();
        assert(self@ =~= old(self)@.sampler_flushed());
    }

    /// Puts `turn`, or nothing, on screen and drops all other turns.
    pub fn reset_to(&mut self, turn: Option<ArenaTurn>)
        ensures
            final(self)@ == old(self)@.reset_to(
                match turn {
                    None => None,
                    Some(held) => Some(held@),
                },
            ),
    {
        self.advance_revision();
        self.pipeline.clear();
        self.current = match turn {
            None => None,
            Some(mut held) => {
                held.activate_at(self.revision, self.sampler_epoch);
                Some(held)
            },
        };
        assert(self@.pipeline =~= Seq::<TurnModel>::empty());
        assert(self@ =~= old(self)@.reset_to(
            match turn {
                None => None,
                Some(held) => Some(held@),
            },
        ));
    }

    /// Puts `turn`, or nothing, on screen and drops all other turns, because turns are drawn
    /// differently now.
    pub fn reset_sampler_to(&mut self, turn: Option<ArenaTurn>)
        ensures
            final(self)@ == old(self)@.sampler_reset_to(
                match turn {
                    None => None,
                    Some(held) => Some(held@),
                },
            ),
    {
        self.sampler_epoch = self.sampler_epoch.next();
        let ghost middle = self@;
        self.reset_to(turn);
        assert(middle =~= (SessionModel { sampler_epoch: bump(old(self)@.sampler_epoch), ..old(self)@ }));
    }

    /// Puts the first prepared turn on screen.
    pub fn promote_pipeline(&mut self) -> (r: Option<ArenaTurn>)
        ensures
            final(self)@ == old(self)@.pipeline_promoted(),
            match r {
                None => old(self)@.pipeline.len() == 0,
                Some(turn) => old(self)@.pipeline.len() > 0 && final(self)@.current == Some(turn@),
            },
            r matches Some(turn) ==> turn@.id == old(self)@.pipeline[0].id && turn@.pair == old(
                self,
            )@.pipeline[0].pair && final(self)@.pipeline.len() == old(self)@.pipeline.len() - 1 && (
            forall|i: int|
                0 <= i < final(self)@.pipeline.len() ==> #[trigger] final(self)@.pipeline[i] == old(
                    self,
                )@.pipeline[i + 1]),
    {
        if self.pipeline.len() == 0 {
            return None;
        }
        let ghost turns = turn_models(self.pipeline@);
        let mut turn = self.pipeline.remove(0);
        turn.activate_at(self.revision, self.sampler_epoch);
        self.current = Some(turn.clone());
        assert(self@.pipeline =~= turns.skip(1));
        assert(self@ =~= old(self)@.pipeline_promoted());
        Some(turn)
    }

    /// Whether the command was already carried out.
    pub fn already_applied(&self, command_id: &ArenaCommandId) -> (r: bool)
        ensures
            r == self@.applied.contains(command_id.0@),
    {
        let ghost names = command_names(self.applied@);
        let mut i: usize = 0;
        while i < self.applied.len()
            invariant
                i <= self.applied.len(),
                names == command_names(self.applied@),
                forall|j: int| 0 <= j < i ==> #[trigger] names[j] != command_id.0@,
            decreases self.applied.len() - i,
        {
            if self.applied[i].0 == command_id.0 {
                assert(names[i as int] == command_id.0@);
                return true;
            }
            assert(names[i as int] == self.applied@[i as int].0@);
            i += 1;
        }
        false
    }

    /// Remembers that the command was carried out, and forgets the oldest commands beyond what is
    /// remembered.
    pub fn remember(&mut self, command_id: ArenaCommandId)
        ensures
            final(self)@ == old(self)@.remembered(command_id.0@),
    {
        let ghost added = command_id.0@;
        if !self.already_applied(&command_id) {
            let ghost names = command_names(self.applied@);
            self.applied.push(command_id);
            assert(command_names(self.applied@) =~= names.push(added));
        }
        let ghost full = command_names(self.applied@);
        let ghost dropped: int = 0;
        while self.applied.len() > ARENA_COMMAND_REPLAY_LIMIT
            invariant
                0 <= dropped <= full.len(),
                command_names(self.applied@) == full.skip(dropped),
                dropped > 0 ==> self.applied.len() >= ARENA_COMMAND_REPLAY_LIMIT,
                self.revision == old(self).revision,
                self.sampler_epoch == old(self).sampler_epoch,
                self.current == old(self).current,
                self.pipeline == old(self).pipeline,
            decreases self.applied.len(),
        {
            let ghost held = command_names(self.applied@);
            let _retired = self.applied.remove(0);
            proof {
                assert(command_names(self.applied@) =~= held.skip(1));
                assert(full.skip(dropped).skip(1) =~= full.skip(dropped + 1));
                dropped = dropped + 1;
            }
        }
        assert(full.skip(0) =~= full);
        assert(command_names(self.applied@) =~= newest(full));
        assert(self@ =~= old(self)@.remembered(added));
    }

    /// Keeps the prepared turns whose names are known.
    pub fn reconcile_pipeline(&mut self, known_pipeline_ids: &TextSet)
        ensures
            final(self)@ == old(self)@.pipeline_reconciled(known_pipeline_ids@),
    {
        let ghost turns = turn_models(self.pipeline@);
        let ghost known = known_pipeline_ids@;
        let mut flags: Vec<bool> = Vec::new();
        let mut i: usize = 0;
        while i < self.pipeline.len()
            invariant
                i <= self.pipeline.len(),
                *self == *old(self),
                turns == turn_models(self.pipeline@),
                known == known_pipeline_ids@,
                flags.len() == i,
                forall|j: int| 0 <= j < i ==> #[trigger] flags@[j] == known.contains(turns[j].id),
            decreases self.pipeline.len() - i,
        {
            assert(turns[i as int] == self.pipeline@[i as int]@);
            flags.push(known_pipeline_ids.contains(&self.pipeline[i].id().0));
            i += 1;
        }
        retain_turns(&mut self.pipeline, &flags);
        proof {
            lemma_kept_is_filter(turns, flags@, |turn: TurnModel| known.contains(turn.id));
        }
        assert(self@ =~= old(self)@.pipeline_reconciled(known));
    }

    /// The looks of all images on screen or behind it.
    pub fn visual_exclusions(&self) -> (r: TextSet)
        ensures
            r@ == self@.shown_looks(),
    {
        let ghost turns = turn_models(self.pipeline@);
        let mut looks = TextSet::new();
        match &self.current {
            None => {},
            Some(turn) => {
                looks.extend(turn.visual_keys());
            },
        }
        let ghost first = looks@;
        let mut i: usize = 0;
        while i < self.pipeline.len()
            invariant
                i <= self.pipeline.len(),
                turns == turn_models(self.pipeline@),
                forall|key: Seq<char>| #[trigger] looks@.contains(key) <==> (first.contains(key) || exists|j: int|
                    0 <= j < i && #[trigger] turns[j].visual_keys.contains(key)),
            decreases self.pipeline.len() - i,
        {
            let ghost held = looks@;
            assert(turns[i as int] == self.pipeline@[i as int]@);
            looks.extend(self.pipeline[i].visual_keys());
            assert forall|key: Seq<char>| #[trigger] looks@.contains(key) <==> (first.contains(key)
                || exists|j: int| 0 <= j < i + 1 && #[trigger] turns[j].visual_keys.contains(key)) by {
                if turns[i as int].visual_keys.contains(key) {
                    assert(0 <= i < i + 1);
                }
                if held.contains(key) && !first.contains(key) {
                    let j = choose|j: int| 0 <= j < i && #[trigger] turns[j].visual_keys.contains(key);
                    assert(0 <= j < i + 1 && turns[j].visual_keys.contains(key));
                }
            }
            i += 1;
        }
        assert(looks@ =~= self@.shown_looks());
        looks
    }
}

impl ArenaSessionRuntime {
    /// Drops the prepared turns that can no longer be shown; `live` says it of each, in order.
    pub fn cull_dead_arena_pipeline(&mut self, live: &Vec<bool>)
        requires
            live.len() == old(self)@.pipeline.len(),
        ensures
            final(self)@ == old(self)@.pipeline_culled(live@),
    {
        let ghost turns = turn_models(self.pipeline@);
        let ghost epoch = self.sampler_epoch.0;
        let mut flags: Vec<bool> = Vec::new();
        let mut i: usize = 0;
        while i < self.pipeline.len()
            invariant
                i <= self.pipeline.len(),
                *self == *old(self),
                turns == turn_models(self.pipeline@),
                live.len() == turns.len(),
                epoch == self.sampler_epoch.0,
                flags.len() == i,
                forall|j: int|
                    0 <= j < i ==> #[trigger] flags@[j] == (live@[j] && turns[j].sampler_epoch == epoch),
            decreases self.pipeline.len() - i,
        {
            assert(turns[i as int] == self.pipeline@[i as int]@);
            flags.push(live[i] && self.pipeline[i].sampler_epoch().0 == self.sampler_epoch.0);
            i += 1;
        }
        retain_turns(&mut self.pipeline, &flags);
        assert(flags@ =~= Seq::new(
            turns.len(),
            |j: int| live@[j] && turns[j].sampler_epoch == epoch,
        ));
        assert(self@ =~= old(self)@.pipeline_culled(live@));
    }

    /// Drops the turns that can no longer be shown. Where the turn on screen cannot, all are
    /// dropped; else `live` says it of each prepared turn, in order.
    pub fn cull_dead_arena_state(&mut self, current_live: bool, live: &Vec<bool>)
        requires
            live.len() == old(self)@.pipeline.len(),
        ensures
            final(self)@ == old(self)@.culled(current_live, live@),
    {
        let dead = match &self.current {
            None => false,
            Some(turn) => turn.sampler_epoch().0 != self.sampler_epoch.0 || !current_live,
        };
        if dead {
            self.shatter();
        } else {
            self.cull_dead_arena_pipeline(live);
        }
    }

    /// Whether the command was made for the turn on screen.
    pub fn arena_command_matches_current(&self, command: &ArenaCommand) -> (r: bool)
        ensures
            r == self@.expects(command.header()),
    {
        match &self.current {
            None => false,
            Some(turn) => {
                command.expected_revision().0 == self.revision.0
                    && command.expected_sampler_epoch().0 == self.sampler_epoch.0
                    && turn.sampler_epoch().0 == self.sampler_epoch.0
                    && command.turn_id().0 == turn.id().0
                    && command.action_token().0 == turn.action_token().0
            },
        }
    }

    /// What a command is answered: a command that was carried out is not carried out again, and
    /// one that was made for another turn is not carried out at all.
    pub fn admit_command(&self, command: &ArenaCommand) -> (r: ArenaCommandAdmission)
        ensures
            match r {
                ArenaCommandAdmission::Replayed => self@.applied.contains(command.header().command_id),
                ArenaCommandAdmission::Stale => !self@.applied.contains(command.header().command_id)
                    && !self@.expects(command.header()),
                ArenaCommandAdmission::Accepted { pair } => {
                    &&& !self@.applied.contains(command.header().command_id)
                    &&& self@.expects(command.header())
                    &&& self@.current matches Some(turn) && turn.pair == pair@
                },
            },
    {
        if self.already_applied(command.command_id()) {
            return ArenaCommandAdmission::Replayed;
        }
        if !self.arena_command_matches_current(command) {
            return ArenaCommandAdmission::Stale;
        }
        match &self.current {
            None => ArenaCommandAdmission::Stale,
            Some(turn) => ArenaCommandAdmission::Accepted { pair: turn.pair().clone() },
        }
    }

    /// Goes on after the effect of a command was carried out. `live` says of each prepared turn,
    /// in order, whether it can still be shown.
    pub fn begin_advance(
        &mut self,
        command_id: ArenaCommandId,
        advance: ArenaCommandAdvance,
        live: &Vec<bool>,
    ) -> (r: ArenaAdvanceStep)
        requires
            live.len() == old(self)@.pipeline.len(),
        ensures
            match advance {
                ArenaCommandAdvance::Preserve => {
                    let moved = old(self)@.remembered(command_id.0@).pipeline_culled(
                        live@,
                    ).revision_advanced();
                    &&& final(self)@ == moved.pipeline_promoted()
                    &&& r == if moved.pipeline.len() == 0 {
                        ArenaAdvanceStep::SampleNext
                    } else {
                        ArenaAdvanceStep::Settled
                    }
                },
                ArenaCommandAdvance::Flush => {
                    &&& final(self)@ == old(self)@.remembered(command_id.0@).sampler_flushed()
                    &&& r is Settled
                },
                ArenaCommandAdvance::Reset { local_anchor } => {
                    &&& final(self)@ == old(self)@.remembered(command_id.0@)
                    &&& r == (ArenaAdvanceStep::SampleReset { local_anchor })
                },
            },
            advance is Preserve ==> forall|i: int|
                laws::session::first_showable(old(self)@, live@, i) ==> laws::session::on_screen(
                    final(self)@,
                    #[trigger] old(self)@.pipeline[i],
                ),
    {
        let ghost before = self@;
        let ghost name = command_id.0@;
        self.remember(command_id);
        match advance {
            ArenaCommandAdvance::Preserve => {
                self.cull_dead_arena_pipeline(live);
                self.advance_revision();
                let promoted = self.promote_pipeline();
                assert forall|i: int| laws::session::first_showable(
                    before,
                    live@,
                    i,
                ) implies laws::session::on_screen(self@, #[trigger] before.pipeline[i]) by {
                    laws::session::the_first_showable_turn_comes_on_screen(before, name, live@, i);
                }
                match promoted {
                    None => ArenaAdvanceStep::SampleNext,
                    Some(_) => ArenaAdvanceStep::Settled,
                }
            },
            ArenaCommandAdvance::Flush => {
                self.flush_sampler();
                ArenaAdvanceStep::Settled
            },
            ArenaCommandAdvance::Reset { local_anchor } => ArenaAdvanceStep::SampleReset {
                local_anchor,
            },
        }
    }

    /// Goes on once the pair that the session waited for was drawn, or none could be.
    pub fn finish_advance(&mut self, step: &ArenaAdvanceStep, drawn: Option<&DrawnPair>)
        ensures
            match step {
                ArenaAdvanceStep::Settled => final(self)@ == old(self)@,
                ArenaAdvanceStep::SampleNext => {
                    &&& final(self)@ == (SessionModel { current: final(self)@.current, ..old(self)@ })
                    &&& drawn_on_screen(
                        final(self)@.current,
                        drawn,
                        old(self)@.revision,
                        old(self)@.sampler_epoch,
                    )
                },
                ArenaAdvanceStep::SampleReset { .. } => {
                    &&& final(self)@ == old(self)@.sampler_reset_to(final(self)@.current)
                    &&& drawn_on_screen(
                        final(self)@.current,
                        drawn,
                        bump(old(self)@.revision),
                        bump(old(self)@.sampler_epoch),
                    )
                },
            },
    {
        match step {
            ArenaAdvanceStep::Settled => {},
            ArenaAdvanceStep::SampleNext => {
                self.current = match drawn {
                    None => None,
                    Some(pair) => Some(ArenaTurn::forge(self.revision, self.sampler_epoch, pair)),
                };
            },
            ArenaAdvanceStep::SampleReset { .. } => {
                let turn = match drawn {
                    None => None,
                    Some(pair) => Some(
                        ArenaTurn::forge(self.revision.next(), self.sampler_epoch.next(), pair),
                    ),
                };
                self.reset_sampler_to(turn);
                assert(self@ =~= old(self)@.sampler_reset_to(self@.current));
            },
        }
    }

    /// The answer to a command.
    pub fn outcome(&self, status: ArenaCommandStatus) -> (r: ArenaCommandOutcome)
        ensures
            r.status == status,
            self@.current == match r.current {
                None => None,
                Some(turn) => Some(turn@),
            },
    {
        ArenaCommandOutcome { status, current: self.current() }
    }

    /// What a page request waits for: one that asks for another pair than the one on screen is
    /// sent on to that one.
    pub fn open_page(&self, requested: Option<&ArenaPairRef>) -> (r: ArenaPageStep)
        ensures
            match (requested, self@.current) {
                (None, _) => r is Show,
                (Some(pair), None) => r == (ArenaPageStep::Mint { pair: *pair }),
                (Some(pair), Some(turn)) => if turn.pair == pair@ {
                    r is Show
                } else {
                    r matches ArenaPageStep::Redirect { target } && shows(target, turn.pair)
                },
            },
    {
        match requested {
            None => ArenaPageStep::Show,
            Some(pair) => match &self.current {
                None => ArenaPageStep::Mint { pair: pair.clone() },
                Some(turn) => if turn.pair().same(pair) {
                    ArenaPageStep::Show
                } else {
                    ArenaPageStep::Redirect { target: turn.target() }
                },
            },
        }
    }

    /// Puts a requested pair on screen where it can be shown (then `visual_keys` holds its looks),
    /// else sends the request on to the arena.
    pub fn mint_page(&mut self, pair: &ArenaPairRef, visual_keys: Option<TextSet>) -> (r: ArenaPageStep)
        ensures
            match visual_keys {
                None => final(self)@ == old(self)@ && r == (ArenaPageStep::Redirect {
                    target: RedirectTarget::ArenaRoot,
                }),
                Some(looks) => {
                    &&& final(self)@ == (SessionModel { current: final(self)@.current, ..old(self)@ })
                    &&& final(self)@.current matches Some(turn) && forged(
                        turn,
                        old(self)@.revision,
                        old(self)@.sampler_epoch,
                        pair@,
                        looks@,
                    )
                    &&& r is Show
                },
            },
    {
        match visual_keys {
            None => ArenaPageStep::Redirect { target: RedirectTarget::ArenaRoot },
            Some(looks) => {
                let turn = ArenaTurn::from_pair_ref(
                    self.revision,
                    self.sampler_epoch,
                    pair.clone(),
                    looks,
                );
                self.install_current(turn);
                ArenaPageStep::Show
            },
        }
    }

    /// Whether a pair for the screen has to be drawn.
    pub fn lacks_current(&self) -> (r: bool)
        ensures
            r == (self@.current is None),
    {
        self.current.is_none()
    }

    /// Puts a drawn pair on screen.
    pub fn install_drawn(&mut self, drawn: &DrawnPair)
        ensures
            final(self)@ == (SessionModel { current: final(self)@.current, ..old(self)@ }),
            final(self)@.current matches Some(turn) && forged(
                turn,
                old(self)@.revision,
                old(self)@.sampler_epoch,
                drawn.pair@,
                drawn.visual_keys@,
            ),
    {
        let turn = ArenaTurn::forge(self.revision, self.sampler_epoch, drawn);
        self.install_current(turn);
    }

    /// The looks that a prepared turn must not repeat, where one has to be drawn to stand directly
    /// behind the screen.
    pub fn lookahead_exclusions(&self, excluded: &TextSet) -> (r: Option<TextSet>)
        ensures
            match r {
                None => self@.pipeline.len() > 0,
                Some(looks) => self@.pipeline.len() == 0 && looks@ == self@.shown_looks().union(
                    excluded@,
                ),
            },
    {
        if self.pipeline.len() > 0 {
            return None;
        }
        let mut looks = self.visual_exclusions();
        looks.extend(excluded);
        Some(looks)
    }

    /// The looks that a prepared turn must not repeat, where one more turn can be prepared: not
    /// before there is a turn on screen, and only so many.
    pub fn prefetch_exclusions(&self, excluded: &TextSet) -> (r: Option<TextSet>)
        ensures
            match r {
                None => self@.current is None || self@.pipeline.len() >= ARENA_PIPELINE_LIMIT,
                Some(looks) => self@.current is Some && self@.pipeline.len() < ARENA_PIPELINE_LIMIT
                    && looks@ == self@.shown_looks().union(excluded@),
            },
    {
        if self.current.is_none() || self.pipeline.len() >= ARENA_PIPELINE_LIMIT {
            return None;
        }
        let mut looks = self.visual_exclusions();
        looks.extend(excluded);
        Some(looks)
    }

    /// Prepares a turn of a drawn pair.
    pub fn prepare(&mut self, drawn: &DrawnPair) -> (r: ArenaTurn)
        requires
            old(self)@.pipeline.len() < ARENA_PIPELINE_LIMIT,
        ensures
            final(self)@ == old(self)@.prepared(r@),
            forged(
                r@,
                old(self)@.revision,
                old(self)@.sampler_epoch,
                drawn.pair@,
                drawn.visual_keys@,
            ),
    {
        let turn = ArenaTurn::forge(self.revision, self.sampler_epoch, drawn);
        let ghost turns = turn_models(self.pipeline@);
        let held = turn.clone();
        self.pipeline.push(held);
        assert(turn_models(self.pipeline@) =~= turns.push(turn@));
        assert(self@ =~= old(self)@.prepared(turn@));
        turn
    }

    /// What the page shows.
    pub fn page(&self) -> (r: ArenaPageState)
        ensures
            r.redirect is None,
            self@.current == match r.current {
                None => None,
                Some(turn) => Some(turn@),
            },
            match r.lookahead {
                None => self@.pipeline.len() == 0,
                Some(turn) => self@.pipeline.len() > 0 && self@.pipeline[0] == turn@,
            },
    {
        let lookahead = if self.pipeline.len() == 0 {
            None
        } else {
            assert(turn_models(self.pipeline@)[0] == self.pipeline@[0]@);
            Some(self.pipeline[0].clone())
        };
        ArenaPageState { current: self.current(), lookahead, redirect: None }
    }
}

/// What is on screen is the drawn pair, or nothing where none was drawn.
pub open spec fn drawn_on_screen(
    current: Option<TurnModel>,
    drawn: Option<&DrawnPair>,
    revision: u64,
    sampler_epoch: u64,
) -> bool {
    match drawn {
        None => current is None,
        Some(pair) => current matches Some(turn) && forged(
            turn,
            revision,
            sampler_epoch,
            pair.pair@,
            pair.visual_keys@,
        ),
    }
}

/// Whatever is done to a well-formed session, it stays well-formed: every turn belongs to the
/// session's revision and epoch, and what is prepared and remembered stays bounded.
pub proof fn sessions_stay_well_formed(
    session: SessionModel,
    turn: TurnModel,
    command_id: Seq<char>,
    live: Seq<bool>,
    current_live: bool,
    known: Set<Seq<char>>,
)
    requires
        session.wf(),
    ensures
        session.shattered().wf(),
        session.sampler_invalidated().wf(),
        session.revision_advanced().wf(),
        session.current_installed(turn).wf(),
        session.sampler_flushed().wf(),
        session.reset_to(None).wf(),
        session.reset_to(Some(turn)).wf(),
        session.sampler_reset_to(None).wf(),
        session.sampler_reset_to(Some(turn)).wf(),
        session.pipeline_promoted().wf(),
        session.remembered(command_id).wf(),
        session.pipeline_reconciled(known).wf(),
        session.pipeline_culled(live).wf(),
        session.culled(current_live, live).wf(),
        turn == turn.at(session.revision, session.sampler_epoch) && session.pipeline.len()
            < ARENA_PIPELINE_LIMIT ==> session.prepared(turn).wf(),
{
    let advanced = session.revision_advanced();
    assert(advanced.current matches Some(t) ==> t =~= t.at(advanced.revision, advanced.sampler_epoch));
    let installed = session.current_installed(turn);
    assert(installed.current->0 =~= installed.current->0.at(installed.revision, installed.sampler_epoch));
    let flushed = session.sampler_flushed();
    assert(flushed.current matches Some(t) ==> t =~= t.at(flushed.revision, flushed.sampler_epoch));
    let reset = session.reset_to(Some(turn));
    assert(reset.current->0 =~= reset.current->0.at(reset.revision, reset.sampler_epoch));
    let anew = session.sampler_reset_to(Some(turn));
    assert(anew.current->0 =~= anew.current->0.at(anew.revision, anew.sampler_epoch));
    if session.pipeline.len() > 0 {
        let promoted = session.pipeline_promoted();
        assert(promoted.current->0 =~= promoted.current->0.at(promoted.revision, promoted.sampler_epoch));
    }
    lemma_remembering(session.applied, command_id);
    let reconciled = session.pipeline_reconciled(known).pipeline;
    let pred = |t: TurnModel| known.contains(t.id);
    session.pipeline.lemma_filter_len(pred);
    assert forall|i: int| 0 <= i < reconciled.len() implies #[trigger] reconciled[i]
        == reconciled[i].at(session.revision, session.sampler_epoch) by {
        let flags = Seq::new(session.pipeline.len(), |j: int| pred(session.pipeline[j]));
        lemma_kept_is_filter(session.pipeline, flags, pred);
        lemma_kept_members(session.pipeline, flags, i);
        let j = choose|j: int| 0 <= j < session.pipeline.len() && session.pipeline[j] == reconciled[i];
        assert(session.pipeline[j] == session.pipeline[j].at(session.revision, session.sampler_epoch));
    }
    let flags = Seq::new(
        session.pipeline.len(),
        |i: int| live[i] && session.pipeline[i].sampler_epoch == session.sampler_epoch,
    );
    let culled = session.pipeline_culled(live).pipeline;
    lemma_kept_len(session.pipeline, flags);
    assert forall|i: int| 0 <= i < culled.len() implies #[trigger] culled[i] == culled[i].at(
        session.revision,
        session.sampler_epoch,
    ) by {
        lemma_kept_members(session.pipeline, flags, i);
        let j = choose|j: int| 0 <= j < session.pipeline.len() && session.pipeline[j] == culled[i];
        assert(session.pipeline[j] == session.pipeline[j].at(session.revision, session.sampler_epoch));
    }
}

proof fn lemma_remembering(applied: Seq<Seq<char>>, command_id: Seq<char>)
    requires
        applied.no_duplicates(),
        applied.len() <= ARENA_COMMAND_REPLAY_LIMIT,
    ensures
        remembering(applied, command_id).no_duplicates(),
        remembering(applied, command_id).len() <= ARENA_COMMAND_REPLAY_LIMIT,
        remembering(applied, command_id).contains(command_id),
{
    if !applied.contains(command_id) {
        let longer = applied.push(command_id);
        assert(longer.no_duplicates());
        let kept_ids = remembering(applied, command_id);
        assert(kept_ids[kept_ids.len() - 1] == command_id);
    }
}

/// Remembering a command twice in a row is remembering it once.
pub proof fn remembering_twice_is_remembering_once(session: SessionModel, command_id: Seq<char>)
    requires
        session.wf(),
    ensures
        session.remembered(command_id).remembered(command_id) == session.remembered(command_id),
{
    lemma_remembering(session.applied, command_id);
}

/// A command that was just carried out is remembered.
pub proof fn carried_out_commands_are_recognised_at_once(session: SessionModel, command_id: Seq<char>)
    requires
        session.wf(),
    ensures
        session.remembered(command_id).applied.contains(command_id),
{
    lemma_remembering(session.applied, command_id);
}

/// The remembered commands after several more were carried out, one after the other.
pub open spec fn remembering_all(applied: Seq<Seq<char>>, command_ids: Seq<Seq<char>>) -> Seq<Seq<char>>
    decreases command_ids.len(),
{
    if command_ids.len() == 0 {
        applied
    } else {
        remembering(remembering_all(applied, command_ids.drop_last()), command_ids.last())
    }
}

/// A command that is carried out for the first time is recognised when it comes again, as long as
/// fewer other commands were carried out in between than are remembered.
pub proof fn carried_out_commands_are_recognised(
    session: SessionModel,
    command_id: Seq<char>,
    later: Seq<Seq<char>>,
)
    requires
        session.wf(),
        !session.applied.contains(command_id),
        later.len() < ARENA_COMMAND_REPLAY_LIMIT,
    ensures
        remembering_all(session.remembered(command_id).applied, later).contains(command_id),
{
    lemma_remembering(session.applied, command_id);
    let first = session.remembered(command_id).applied;
    assert(first[first.len() - 1] == command_id);
    lemma_position_after(first, command_id, later);
}

proof fn lemma_position_after(first: Seq<Seq<char>>, command_id: Seq<char>, later: Seq<Seq<char>>)
    requires
        first.no_duplicates(),
        1 <= first.len() <= ARENA_COMMAND_REPLAY_LIMIT,
        first[first.len() - 1] == command_id,
        later.len() < ARENA_COMMAND_REPLAY_LIMIT,
    ensures
        ({
            let held = remembering_all(first, later);
            &&& held.no_duplicates()
            &&& held.len() <= ARENA_COMMAND_REPLAY_LIMIT
            &&& exists|p: int|
                0 <= p < held.len() && #[trigger] held[p] == command_id && held.len() - p <= later.len()
                    + 1
        }),
    decreases later.len(),
{
    if later.len() == 0 {
        assert(first[first.len() - 1] == command_id);
    } else {
        lemma_position_after(first, command_id, later.drop_last());
        let held = remembering_all(first, later.drop_last());
        let next = remembering(held, later.last());
        lemma_remembering(held, later.last());
        let p = choose|p: int|
            0 <= p < held.len() && #[trigger] held[p] == command_id && held.len() - p <= later.len();
        if held.contains(later.last()) {
            assert(next[p] == command_id);
        } else if held.len() + 1 > ARENA_COMMAND_REPLAY_LIMIT {
            assert(next[p - 1] == command_id);
        } else {
            assert(next[p] == command_id);
        }
    }
}

/// Each of the commands was carried out when its turn came: it was not one of those remembered then.
pub open spec fn each_was_carried_out(applied: Seq<Seq<char>>, command_ids: Seq<Seq<char>>) -> bool {
    forall|k: int|
        0 <= k < command_ids.len() ==> !remembering_all(applied, command_ids.take(k)).contains(
            #[trigger] command_ids[k],
        )
}

proof fn lemma_newest_are_remembered(first: Seq<Seq<char>>, later: Seq<Seq<char>>)
    requires
        first.len() <= ARENA_COMMAND_REPLAY_LIMIT,
        each_was_carried_out(first, later),
    ensures
        remembering_all(first, later) == newest(first + later),
    decreases later.len(),
{
    if later.len() == 0 {
        assert(first + later =~= first);
    } else {
        let shorter = later.drop_last();
        assert forall|k: int| 0 <= k < shorter.len() implies !remembering_all(
            first,
            shorter.take(k),
        ).contains(#[trigger] shorter[k]) by {
            assert(shorter.take(k) =~= later.take(k));
            assert(!remembering_all(first, later.take(k)).contains(later[k]));
        }
        lemma_newest_are_remembered(first, shorter);
        let last = later.len() - 1;
        assert(later.take(last) =~= shorter);
        assert(!remembering_all(first, later.take(last)).contains(later[last]));
        assert(newest(newest(first + shorter).push(later[last])) =~= newest(first + later));
    }
}

/// A command is forgotten once as many others were carried out after it as are remembered.
pub proof fn old_commands_are_forgotten(
    session: SessionModel,
    command_id: Seq<char>,
    later: Seq<Seq<char>>,
)
    requires
        session.wf(),
        each_was_carried_out(session.remembered(command_id).applied, later),
        !later.contains(command_id),
        later.len() >= ARENA_COMMAND_REPLAY_LIMIT,
    ensures
        !remembering_all(session.remembered(command_id).applied, later).contains(command_id),
{
    lemma_remembering(session.applied, command_id);
    let first = session.remembered(command_id).applied;
    lemma_newest_are_remembered(first, later);
    let held = newest(first + later);
    assert(held =~= later.skip(later.len() - ARENA_COMMAND_REPLAY_LIMIT));
    if held.contains(command_id) {
        let p = choose|p: int| 0 <= p < held.len() && held[p] == command_id;
        assert(later[p + later.len() - ARENA_COMMAND_REPLAY_LIMIT] == command_id);
    }
}

/// Once a command was carried out, no command that was made for the same revision is accepted any
/// more, whatever the session waited for: commands are carried out one per revision. Only the
/// largest revision, which is never left, is excepted.
pub proof fn one_command_per_revision(
    session: SessionModel,
    header: CommandHeader,
    other: CommandHeader,
    live: Seq<bool>,
    turn: Option<TurnModel>,
)
    requires
        session.expects(header),
        session.revision < u64::MAX,
        other.expected_revision == header.expected_revision,
    ensures
        !session.remembered(header.command_id).pipeline_culled(
            live,
        ).revision_advanced().pipeline_promoted().expects(other),
        !session.remembered(header.command_id).sampler_flushed().expects(other),
        !session.remembered(header.command_id).sampler_reset_to(turn).expects(other),
{
}

/// Revisions and epochs never go back, and every change of what turns are drawn from leaves no
/// turn of an earlier epoch behind the screen.
pub proof fn changes_count_up(session: SessionModel, turn: Option<TurnModel>)
    ensures
        session.revision <= session.shattered().revision,
        session.revision <= session.revision_advanced().revision,
        session.sampler_epoch <= session.sampler_invalidated().sampler_epoch,
        session.sampler_epoch <= session.sampler_flushed().sampler_epoch,
        session.sampler_epoch <= session.sampler_reset_to(turn).sampler_epoch,
        session.sampler_invalidated().pipeline.len() == 0,
        session.sampler_flushed().pipeline.len() == 0,
        session.sampler_reset_to(turn).pipeline.len() == 0,
{
}

} // verus!
