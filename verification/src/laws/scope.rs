//! What the arena is locked to, and where a request is sent.
use crate::arena_scope;
use crate::arena_scope::{ArenaScope, ArenaScopeAction, ScopeWrite, ThreadKey};
use crate::laws;
use crate::model;
use crate::model::{ArenaHandle, AssetId, ExploreMapMode, FaceId, HandleModel};
use crate::runtime;
use crate::runtime::RedirectTarget;
use crate::text;
use vstd::prelude::*;

verus! {

/// A lock locks its thread. It changes nothing where the thread is locked already; otherwise it
/// drops the prepared turns and is stored.
pub proof fn a_lock_is_stored_where_it_is_new(scope: ArenaScope, thread: ThreadKey)
    ensures
        ({
            let r = arena_scope::reduced(scope, ArenaScopeAction::Lock(thread));
            let already = match scope {
                ArenaScope::Global => false,
                ArenaScope::LockedThread(held) => held.source_key@ == thread.source_key@
                    && held.stream_id == thread.stream_id,
            };
            &&& already ==> r.next_scope == scope && r.pipeline is Preserve && r.write is Preserve
            &&& !already ==> r.next_scope == ArenaScope::LockedThread(thread) && r.pipeline is Reset
                && r.write == ScopeWrite::Assign(thread)
        }),
{
}

/// An unlock opens the arena. It changes nothing where nothing is locked; otherwise it drops the
/// prepared turns and removes the stored lock.
pub proof fn an_unlock_clears_what_was_locked(scope: ArenaScope)
    ensures
        ({
            let r = arena_scope::reduced(scope, ArenaScopeAction::Unlock);
            &&& r.next_scope is Global
            &&& scope is Global ==> r.pipeline is Preserve && r.write is Preserve
            &&& scope is LockedThread ==> r.pipeline is Reset && r.write is Clear
        }),
{
}

/// A veto drops the prepared turns; it opens the arena and removes the stored lock exactly where the
/// vetoed thread is the locked one.
pub proof fn a_veto_clears_the_lock_on_its_thread(scope: ArenaScope, thread: ThreadKey)
    ensures
        ({
            let r = arena_scope::reduced(scope, ArenaScopeAction::Veto(thread));
            let its_own = match scope {
                ArenaScope::Global => false,
                ArenaScope::LockedThread(held) => held.source_key@ == thread.source_key@
                    && held.stream_id == thread.stream_id,
            };
            &&& r.pipeline is Reset
            &&& its_own ==> r.next_scope is Global && r.write is Clear
            &&& !its_own ==> r.next_scope == scope && r.write is Preserve
        }),
{
}

/// A write leaves the stored lock, puts a thread in its place or removes it.
pub proof fn writes_do_what_they_say(stored: Option<(Seq<char>, i64)>, thread: ThreadKey)
    ensures
        arena_scope::written(stored, ScopeWrite::Preserve) == stored,
        arena_scope::written(stored, ScopeWrite::Assign(thread)) == Some(
            (thread.source_key@, thread.stream_id),
        ),
        arena_scope::written(stored, ScopeWrite::Clear) is None,
        arena_scope::locked_thread(ArenaScope::Global) is None,
        arena_scope::locked_thread(ArenaScope::LockedThread(thread)) == Some(
            (thread.source_key@, thread.stream_id),
        ),
{
}

/// When an outside image is turned down, an image of the collection stays exactly where it is one
/// side of the pair and an outside image the other; when an image of the collection is, none does.
pub proof fn the_local_side_of_a_mixed_pair_survives(
    rejected: ArenaHandle,
    left: ArenaHandle,
    right: ArenaHandle,
    anchor: AssetId,
)
    ensures
        runtime::spec_surviving_local_anchor(rejected, left, right) == Some(anchor) <==> rejected is Remote
            && ((left == ArenaHandle::Local(anchor) && right is Remote) || (left is Remote && right
            == ArenaHandle::Local(anchor))),
        rejected is Local ==> runtime::spec_surviving_local_anchor(rejected, left, right) is None,
        left is Local && right is Local ==> runtime::spec_surviving_local_anchor(rejected, left, right)
            is None,
        left is Remote && right is Remote ==> runtime::spec_surviving_local_anchor(rejected, left, right)
            is None,
{
}

/// Images of the collection and outside images are told apart in addresses, and so is each from the
/// others.
pub proof fn handles_are_told_apart_in_addresses(a: HandleModel, b: HandleModel)
    ensures
        model::handle_slug(a) == model::handle_slug(b) ==> a == b,
        match a {
            HandleModel::Local(id) => model::handle_slug(a) == "local:"@ + id,
            HandleModel::Remote(item) => model::handle_slug(a) == "remote:"@ + text::signed_decimal(
                item.0 as int,
            ),
        },
{
    reveal_strlit("local:");
    reveal_strlit("remote:");
    let (x, y) = (model::handle_slug(a), model::handle_slug(b));
    assert(a is Local ==> x[0] == 'l');
    assert(b is Local ==> y[0] == 'l');
    assert(a is Remote ==> x[0] == 'r');
    assert(b is Remote ==> y[0] == 'r');
    if x == y {
        match (a, b) {
            (HandleModel::Local(id), HandleModel::Local(other)) => {
                assert(x.skip(6) =~= id);
                assert(y.skip(6) =~= other);
            },
            (HandleModel::Remote(item), HandleModel::Remote(other)) => {
                assert(x.skip(7) =~= text::signed_decimal(item.0 as int));
                assert(y.skip(7) =~= text::signed_decimal(other.0 as int));
                laws::text::numbers_are_read_back(0, item.0);
                laws::text::numbers_are_read_back(0, other.0);
            },
            _ => {},
        }
    }
}

/// The address of a page says which page it is and what it shows, from left to right.
pub proof fn addresses_say_what_is_shown(
    left: ArenaHandle,
    right: ArenaHandle,
    left_face_id: FaceId,
    right_face_id: FaceId,
    asset_a: AssetId,
    asset_b: AssetId,
    asset_c: AssetId,
    focus: AssetId,
    map_mode: ExploreMapMode,
)
    ensures
        runtime::address(RedirectTarget::ArenaRoot) == "/arena"@,
        runtime::address(RedirectTarget::FacemashRoot) == "/facemash"@,
        runtime::address(RedirectTarget::ArenaPair { left, right }) == "/arena/"@ + model::handle_slug(
            left@,
        ) + "/"@ + model::handle_slug(right@),
        runtime::address(RedirectTarget::FacemashPair { left_face_id, right_face_id }) == "/facemash/"@
            + text::signed_decimal(left_face_id.0 as int) + "/"@ + text::signed_decimal(
            right_face_id.0 as int,
        ),
        runtime::address(RedirectTarget::ExploreRoot { map_mode }) == "/explore?mode="@ + map_mode.name(),
        runtime::address(
            RedirectTarget::ExploreTriad { asset_a, asset_b, asset_c, focus_id: None, map_mode },
        ) == "/explore?mode="@ + map_mode.name() + "&triad="@ + asset_a@ + ","@ + asset_b@ + ","@
            + asset_c@,
        runtime::address(
            RedirectTarget::ExploreTriad {
                asset_a,
                asset_b,
                asset_c,
                focus_id: Some(focus),
                map_mode,
            },
        ) == "/explore?mode="@ + map_mode.name() + "&triad="@ + asset_a@ + ","@ + asset_b@ + ","@ + asset_c@
            + "&focus="@ + focus@,
        map_mode is Raw ==> map_mode.name() == "raw"@,
        map_mode is Learned ==> map_mode.name() == "learned"@,
{
}

} // verus!
