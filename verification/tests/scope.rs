use picmash::arena_scope::{
    ArenaScope, ArenaScopeAction, ArenaScopeTransition, PipelineDisposition, ScopeWrite, ThreadKey,
};
use picmash::model::SessionSubsourceLock;

fn thread(source_key: &str, stream_id: i64) -> ThreadKey {
    ThreadKey::new(source_key, stream_id)
}

fn lock(source_key: &str, stream_id: i64) -> SessionSubsourceLock {
    SessionSubsourceLock { source_key: source_key.to_owned(), stream_id }
}

#[test]
fn scope_reducer_exhausts_lock_unlock_veto() {
    let a = thread("4chan:s", 10);
    let b = thread("4chan:s", 11);

    assert_eq!(
        ArenaScope::Global.reduce(ArenaScopeAction::Lock(a.clone())),
        ArenaScopeTransition::reset(
            ArenaScope::LockedThread(a.clone()),
            ScopeWrite::Assign(a.clone()),
        )
    );
    assert_eq!(
        ArenaScope::LockedThread(a.clone()).reduce(ArenaScopeAction::Unlock),
        ArenaScopeTransition::reset(ArenaScope::Global, ScopeWrite::Clear)
    );
    assert_eq!(
        ArenaScope::Global.reduce(ArenaScopeAction::Unlock),
        ArenaScopeTransition::preserve(ArenaScope::Global, ScopeWrite::Preserve)
    );
    assert_eq!(
        ArenaScope::Global.reduce(ArenaScopeAction::Veto(a.clone())),
        ArenaScopeTransition::reset(ArenaScope::Global, ScopeWrite::Preserve)
    );
    assert_eq!(
        ArenaScope::LockedThread(a.clone()).reduce(ArenaScopeAction::Veto(a.clone())),
        ArenaScopeTransition::reset(ArenaScope::Global, ScopeWrite::Clear)
    );
    assert_eq!(
        ArenaScope::LockedThread(a.clone()).reduce(ArenaScopeAction::Veto(b.clone())),
        ArenaScopeTransition::reset(ArenaScope::LockedThread(a.clone()), ScopeWrite::Preserve)
    );
    assert_eq!(
        ArenaScope::LockedThread(a.clone()).reduce(ArenaScopeAction::Lock(a.clone())),
        ArenaScopeTransition::preserve(
            ArenaScope::LockedThread(a.clone()),
            ScopeWrite::Preserve,
        )
    );
    assert_eq!(
        ArenaScope::LockedThread(a).reduce(ArenaScopeAction::Lock(b.clone())),
        ArenaScopeTransition::reset(ArenaScope::LockedThread(b.clone()), ScopeWrite::Assign(b))
    );
}

#[test]
fn stored_lock_follows_the_scope_through_lock_and_unlock() {
    let locked = ArenaScope::Global.reduce(ArenaScopeAction::Lock(thread("4chan:s", 10)));
    let stored = locked.apply(None);
    assert_eq!(stored.as_ref().map(|l| (l.source_key.as_str(), l.stream_id)), Some(("4chan:s", 10)));
    assert!(!locked.clears_lock());
    assert_eq!(locked.pipeline(), PipelineDisposition::Reset);
    assert_eq!(locked.next_lock().map(|l| l.stream_id), Some(10));

    let unlocked = locked.next_scope.reduce(ArenaScopeAction::Unlock);
    assert!(unlocked.clears_lock());
    assert!(unlocked.next_lock().is_none());
    assert!(unlocked.apply(stored).is_none());
    assert_eq!(unlocked.next_scope, ArenaScope::Global);
}

#[test]
fn repeating_a_lock_keeps_everything_as_it_is() {
    let first = ArenaScope::Global.reduce(ArenaScopeAction::Lock(thread("4chan:s", 10)));
    let again = first.next_scope.reduce(ArenaScopeAction::Lock(thread("4chan:s", 10)));
    assert_eq!(again.pipeline(), PipelineDisposition::Preserve);
    assert_eq!(again.write, ScopeWrite::Preserve);
    assert_eq!(again.apply(Some(lock("x", 3))).map(|l| l.stream_id), Some(3));
}

#[test]
fn a_veto_of_another_source_keeps_the_lock() {
    let scope = ArenaScope::from_lock(Some(lock("4chan:s", 10)));
    let other = scope.reduce(ArenaScopeAction::Veto(thread("4chan:wg", 10)));
    assert_eq!(other.next_scope, scope);
    assert_eq!(other.write, ScopeWrite::Preserve);
    assert_eq!(ArenaScope::from_lock(None), ArenaScope::Global);
}

#[test]
fn thread_keys_and_locks_say_the_same() {
    let key = ThreadKey::from_lock(lock("local:abc", -4));
    assert!(key.same(&thread("local:abc", -4)));
    assert!(!key.same(&thread("local:abc", 4)));
    assert!(!key.same(&thread("local:abd", -4)));
    let back = key.to_lock();
    assert_eq!(back.source_key, "local:abc");
    assert_eq!(back.stream_id, -4);
}
