//! Whether the arena draws from everywhere or from one locked thread.
use crate::model::SessionSubsourceLock;
use vstd::prelude::*;

verus! {

/// One thread of an outside source.
#[derive(Debug, PartialEq, Eq)]
pub struct ThreadKey {
    pub source_key: String,
    pub stream_id: i64,
}

impl View for ThreadKey {
    type V = (Seq<char>, i64);

    open spec fn view(&self) -> (Seq<char>, i64) {
        (self.source_key@, self.stream_id)
    }
}

impl Clone for ThreadKey {
    fn clone(&self) -> (r: Self)
        ensures
            r == *self,
    {
        ThreadKey { source_key: self.source_key.clone(), stream_id: self.stream_id }
    }
}

impl ThreadKey {
    /// The thread `stream_id` of the source `source_key`.
    pub fn new(source_key: &str, stream_id: i64) -> (r: Self)
        ensures
            r@ == (source_key@, stream_id),
    {
        ThreadKey { source_key: source_key.to_owned(), stream_id }
    }

    /// The thread that a lock holds.
    pub fn from_lock(lock: SessionSubsourceLock) -> (r: Self)
        ensures
            r.source_key == lock.source_key,
            r.stream_id == lock.stream_id,
    {
        ThreadKey { source_key: lock.source_key, stream_id: lock.stream_id }
    }

    /// The lock on this thread.
    pub fn to_lock(&self) -> (r: SessionSubsourceLock)
        ensures
            r.source_key == self.source_key,
            r.stream_id == self.stream_id,
    {
        SessionSubsourceLock { source_key: self.source_key.clone(), stream_id: self.stream_id }
    }

    /// Whether both are the same thread.
    pub fn same(&self, other: &ThreadKey) -> (r: bool)
        ensures
            r == (self@ == other@),
    {
        self.source_key == other.source_key && self.stream_id == other.stream_id
    }
}

/// What the arena draws from.
#[derive(Debug, PartialEq, Eq)]
pub enum ArenaScope {
    Global,
    LockedThread(ThreadKey),
}

impl Clone for ArenaScope {
    fn clone(&self) -> (r: Self)
        ensures
            r == *self,
    {
        match self {
            ArenaScope::Global => ArenaScope::Global,
            ArenaScope::LockedThread(thread) => ArenaScope::LockedThread(thread.clone()),
        }
    }
}

/// What a user does to the scope.
#[derive(Debug, PartialEq, Eq)]
pub enum ArenaScopeAction {
    Lock(ThreadKey),
    Unlock,
    Veto(ThreadKey),
}

/// What becomes of the turns that are already prepared.
#[derive(Debug, Clone, Copy, PartialEq, Eq, Structural)]
pub enum PipelineDisposition {
    Preserve,
    Flush,
    Reset,
}

/// What has to be written to the stored lock.
#[derive(Debug, PartialEq, Eq)]
pub enum ScopeWrite {
    Preserve,
    Assign(ThreadKey),
    Clear,
}

/// The outcome of an action on the scope.
#[derive(Debug, PartialEq, Eq)]
pub struct ArenaScopeTransition {
    pub next_scope: ArenaScope,
    pub pipeline: PipelineDisposition,
    pub write: ScopeWrite,
}

/// The thread that a scope is locked to.
pub open spec fn locked_thread(scope: ArenaScope) -> Option<(Seq<char>, i64)> {
    match scope {
        ArenaScope::Global => None,
        ArenaScope::LockedThread(thread) => Some(thread@),
    }
}

/// The stored lock after `write`, where it was `stored`.
pub open spec fn written(stored: Option<(Seq<char>, i64)>, write: ScopeWrite) -> Option<(Seq<char>, i64)> {
    match write {
        ScopeWrite::Preserve => stored,
        ScopeWrite::Assign(thread) => Some(thread@),
        ScopeWrite::Clear => None,
    }
}

/// The scope after an action.
pub open spec fn scope_after(scope: ArenaScope, action: ArenaScopeAction) -> ArenaScope {
    match action {
        ArenaScopeAction::Lock(thread) => if locked_thread(scope) == Some(thread@) {
            scope
        } else {
            ArenaScope::LockedThread(thread)
        },
        ArenaScopeAction::Unlock => ArenaScope::Global,
        ArenaScopeAction::Veto(thread) => if locked_thread(scope) == Some(thread@) {
            ArenaScope::Global
        } else {
            scope
        },
    }
}

/// What an action makes of the scope, of the prepared turns and of the stored lock: the prepared
/// turns survive only an action that asks for what is already so, and the lock is written only
/// where it changes.
pub open spec fn reduced(scope: ArenaScope, action: ArenaScopeAction) -> ArenaScopeTransition {
    let next_scope = scope_after(scope, action);
    ArenaScopeTransition {
        next_scope,
        pipeline: if locked_thread(next_scope) == locked_thread(scope) && !(action is Veto) {
            PipelineDisposition::Preserve
        } else {
            PipelineDisposition::Reset
        },
        write: if locked_thread(next_scope) == locked_thread(scope) {
            ScopeWrite::Preserve
        } else {
            match next_scope {
                ArenaScope::Global => ScopeWrite::Clear,
                ArenaScope::LockedThread(thread) => ScopeWrite::Assign(thread),
            }
        },
    }
}

impl ArenaScope {
    /// The scope that a stored lock stands for.
    pub fn from_lock(lock: Option<SessionSubsourceLock>) -> (r: Self)
        ensures
            locked_thread(r) == match lock {
                None => None,
                Some(held) => Some(held@),
            },
    {
        match lock {
            None => ArenaScope::Global,
            Some(held) => ArenaScope::LockedThread(ThreadKey::from_lock(held)),
        }
    }

    /// Applies an action to the scope.
    pub fn reduce(&self, action: ArenaScopeAction) -> (r: ArenaScopeTransition)
        ensures
            r == reduced(*self, action),
    {
        match action {
            ArenaScopeAction::Lock(thread) => match self {
                ArenaScope::LockedThread(current) if current.same(&thread) => {
                    ArenaScopeTransition::preserve(self.clone(), ScopeWrite::Preserve)
                },
                _ => ArenaScopeTransition::reset(
                    ArenaScope::LockedThread(thread.clone()),
                    ScopeWrite::Assign(thread),
                ),
            },
            ArenaScopeAction::Unlock => match self {
                ArenaScope::Global => ArenaScopeTransition::preserve(
                    ArenaScope::Global,
                    ScopeWrite::Preserve,
                ),
                ArenaScope::LockedThread(_) => ArenaScopeTransition::reset(
                    ArenaScope::Global,
                    ScopeWrite::Clear,
                ),
            },
            ArenaScopeAction::Veto(thread) => match self {
                ArenaScope::LockedThread(current) if current.same(&thread) => {
                    ArenaScopeTransition::reset(ArenaScope::Global, ScopeWrite::Clear)
                },
                _ => ArenaScopeTransition::reset(self.clone(), ScopeWrite::Preserve),
            },
        }
    }
}

impl ArenaScopeTransition {
    /// A transition that keeps the prepared turns.
    pub fn preserve(next_scope: ArenaScope, write: ScopeWrite) -> (r: Self)
        ensures
            r == (ArenaScopeTransition { next_scope, pipeline: PipelineDisposition::Preserve, write }),
    {
        ArenaScopeTransition { next_scope, pipeline: PipelineDisposition::Preserve, write }
    }

    /// A transition that drops the prepared turns.
    pub fn reset(next_scope: ArenaScope, write: ScopeWrite) -> (r: Self)
        ensures
            r == (ArenaScopeTransition { next_scope, pipeline: PipelineDisposition::Reset, write }),
    {
        ArenaScopeTransition { next_scope, pipeline: PipelineDisposition::Reset, write }
    }

    /// What becomes of the prepared turns.
    pub fn pipeline(&self) -> (r: PipelineDisposition)
        ensures
            r == self.pipeline,
    {
        self.pipeline
    }

    /// The lock that holds after the transition.
    pub fn next_lock(&self) -> (r: Option<SessionSubsourceLock>)
        ensures
            match r {
                None => locked_thread(self.next_scope) is None,
                Some(lock) => locked_thread(self.next_scope) == Some(lock@),
            },
    {
        match &self.next_scope {
            ArenaScope::Global => None,
            ArenaScope::LockedThread(thread) => Some(thread.to_lock()),
        }
    }

    /// Whether the stored lock is to be removed.
    pub fn clears_lock(&self) -> (r: bool)
        ensures
            r == (self.write is Clear),
    {
        matches!(self.write, ScopeWrite::Clear)
    }

    /// The stored lock after the transition, where it was `stored`.
    pub fn apply(&self, stored: Option<SessionSubsourceLock>) -> (r: Option<SessionSubsourceLock>)
        ensures
            (match r {
                None => None,
                Some(lock) => Some(lock@),
            }) == written(
                match stored {
                    None => None,
                    Some(lock) => Some(lock@),
                },
                self.write,
            ),
    {
        match &self.write {
            ScopeWrite::Preserve => stored,
            ScopeWrite::Assign(thread) => Some(thread.to_lock()),
            ScopeWrite::Clear => None,
        }
    }
}

/// A stored lock that agrees with the scope before an action agrees with it afterwards.
pub proof fn stored_lock_follows_the_scope(
    scope: ArenaScope,
    action: ArenaScopeAction,
    stored: Option<(Seq<char>, i64)>,
)
    requires
        stored == locked_thread(scope),
    ensures
        written(stored, reduced(scope, action).write) == locked_thread(
            reduced(scope, action).next_scope,
        ),
{
}

/// Locking a thread locks it, whatever was locked before; unlocking afterwards locks nothing.
pub proof fn unlocking_undoes_locking(scope: ArenaScope, thread: ThreadKey)
    ensures
        locked_thread(reduced(scope, ArenaScopeAction::Lock(thread)).next_scope) == Some(thread@),
        reduced(
            reduced(scope, ArenaScopeAction::Lock(thread)).next_scope,
            ArenaScopeAction::Unlock,
        ).next_scope is Global,
{
}

/// Repeating a lock or an unlock changes nothing and keeps the prepared turns.
pub proof fn repeating_a_lock_or_unlock_changes_nothing(scope: ArenaScope, action: ArenaScopeAction)
    requires
        !(action is Veto),
    ensures
        ({
            let once = reduced(scope, action).next_scope;
            let twice = reduced(once, action);
            twice.next_scope == once && twice.pipeline is Preserve && twice.write is Preserve
        }),
{
}

/// A veto releases the lock on the vetoed thread and no other, and always drops the prepared
/// turns.
pub proof fn veto_releases_only_its_own_thread(scope: ArenaScope, thread: ThreadKey)
    ensures
        ({
            let after = reduced(scope, ArenaScopeAction::Veto(thread));
            &&& after.pipeline is Reset
            &&& locked_thread(scope) == Some(thread@) ==> after.next_scope is Global
            &&& locked_thread(scope) != Some(thread@) ==> after.next_scope == scope
            &&& locked_thread(after.next_scope) != Some(thread@)
        }),
{
}

} // verus!
