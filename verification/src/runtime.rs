//! Where a request is sent on to, and how far the application has started.
use crate::model::{ArenaHandle, AssetId, ExploreMapMode, FaceId};
use crate::model;
use crate::text;
use vstd::prelude::*;

verus! {

/// A page that a request is sent on to.
#[derive(Debug)]
pub enum RedirectTarget {
    ArenaRoot,
    ArenaPair { left: ArenaHandle, right: ArenaHandle },
    FacemashRoot,
    FacemashPair { left_face_id: FaceId, right_face_id: FaceId },
    ExploreRoot { map_mode: ExploreMapMode },
    ExploreTriad {
        asset_a: AssetId,
        asset_b: AssetId,
        asset_c: AssetId,
        focus_id: Option<AssetId>,
        map_mode: ExploreMapMode,
    },
}

impl Clone for RedirectTarget {
    fn clone(&self) -> (r: Self)
        ensures
            r == *self,
    {
        match self {
            RedirectTarget::ArenaRoot => RedirectTarget::ArenaRoot,
            RedirectTarget::ArenaPair { left, right } => RedirectTarget::ArenaPair {
                left: left.clone(),
                right: right.clone(),
            },
            RedirectTarget::FacemashRoot => RedirectTarget::FacemashRoot,
            RedirectTarget::FacemashPair { left_face_id, right_face_id } => {
                RedirectTarget::FacemashPair {
                    left_face_id: *left_face_id,
                    right_face_id: *right_face_id,
                }
            },
            RedirectTarget::ExploreRoot { map_mode } => RedirectTarget::ExploreRoot {
                map_mode: *map_mode,
            },
            RedirectTarget::ExploreTriad { asset_a, asset_b, asset_c, focus_id, map_mode } => {
                RedirectTarget::ExploreTriad {
                    asset_a: asset_a.clone(),
                    asset_b: asset_b.clone(),
                    asset_c: asset_c.clone(),
                    focus_id: match focus_id {
                        None => None,
                        Some(id) => Some(id.clone()),
                    },
                    map_mode: *map_mode,
                }
            },
        }
    }
}

/// The address of the page that shows a pair of images.
pub open spec fn pair_address(left: model::HandleModel, right: model::HandleModel) -> Seq<char> {
    "/arena/"@ + model::handle_slug(left) + "/"@ + model::handle_slug(right)
}

/// The address of a page.
pub open spec fn address(target: RedirectTarget) -> Seq<char> {
    match target {
        RedirectTarget::ArenaRoot => "/arena"@,
        RedirectTarget::ArenaPair { left, right } => pair_address(left@, right@),
        RedirectTarget::FacemashRoot => "/facemash"@,
        RedirectTarget::FacemashPair { left_face_id, right_face_id } => "/facemash/"@
            + text::signed_decimal(left_face_id.0 as int) + "/"@ + text::signed_decimal(
            right_face_id.0 as int,
        ),
        RedirectTarget::ExploreRoot { map_mode } => "/explore?mode="@ + map_mode.name(),
        RedirectTarget::ExploreTriad { asset_a, asset_b, asset_c, focus_id, map_mode } => {
            let triad = "/explore?mode="@ + map_mode.name() + "&triad="@ + asset_a@ + ","@ + asset_b@
                + ","@ + asset_c@;
            match focus_id {
                None => triad,
                Some(focus) => triad + "&focus="@ + focus@,
            }
        },
    }
}

/// The address of the page that shows a pair of images.
pub fn pair_href(left: &ArenaHandle, right: &ArenaHandle) -> (r: String)
    ensures
        r@ == pair_address(left@, right@),
{
    let mut href = "/arena/".to_owned();
    href.append(left.slug().as_str());
    href.append("/");
    href.append(right.slug().as_str());
    href
}

impl RedirectTarget {
    /// The address of the page.
    pub fn href(&self) -> (r: String)
        ensures
            r@ == address(*self),
    {
        match self {
            RedirectTarget::ArenaRoot => "/arena".to_owned(),
            RedirectTarget::ArenaPair { left, right } => pair_href(left, right),
            RedirectTarget::FacemashRoot => "/facemash".to_owned(),
            RedirectTarget::FacemashPair { left_face_id, right_face_id } => {
                let mut href = "/facemash/".to_owned();
                text::push_signed_decimal(&mut href, left_face_id.0);
                href.append("/");
                text::push_signed_decimal(&mut href, right_face_id.0);
                href
            },
            RedirectTarget::ExploreRoot { map_mode } => "/explore?mode=".to_owned().concat(
                map_mode.as_str(),
            ),
            RedirectTarget::ExploreTriad { asset_a, asset_b, asset_c, focus_id, map_mode } => {
                let mut href = "/explore?mode=".to_owned();
                href.append(map_mode.as_str());
                href.append("&triad=");
                href.append(asset_a.0.as_str());
                href.append(",");
                href.append(asset_b.0.as_str());
                href.append(",");
                href.append(asset_c.0.as_str());
                match focus_id {
                    None => {},
                    Some(focus) => {
                        href.append("&focus=");
                        href.append(focus.0.as_str());
                    },
                }
                href
            },
        }
    }
}

/// The image of the collection that stays when an outside image of the pair is turned down.
pub open spec fn spec_surviving_local_anchor(
    rejected: ArenaHandle,
    pair_left: ArenaHandle,
    pair_right: ArenaHandle,
) -> Option<AssetId> {
    match (rejected, pair_left, pair_right) {
        (ArenaHandle::Remote(_), ArenaHandle::Local(asset_id), ArenaHandle::Remote(_)) => Some(
            asset_id,
        ),
        (ArenaHandle::Remote(_), ArenaHandle::Remote(_), ArenaHandle::Local(asset_id)) => Some(
            asset_id,
        ),
        _ => None,
    }
}

/// The image of the collection that stays when an outside image of the pair is turned down.
pub fn surviving_local_anchor<'a>(
    rejected: &ArenaHandle,
    pair_left: &'a ArenaHandle,
    pair_right: &'a ArenaHandle,
) -> (r: Option<&'a AssetId>)
    ensures
        r == match spec_surviving_local_anchor(*rejected, *pair_left, *pair_right) {
            None => None,
            Some(asset_id) => Some(&asset_id),
        },
{
    match (rejected, pair_left, pair_right) {
        (ArenaHandle::Remote(_), ArenaHandle::Local(asset_id), ArenaHandle::Remote(_)) => Some(
            asset_id,
        ),
        (ArenaHandle::Remote(_), ArenaHandle::Remote(_), ArenaHandle::Local(asset_id)) => Some(
            asset_id,
        ),
        _ => None,
    }
}

/// How far the application has started.
#[derive(Debug, Clone, Copy, PartialEq, Eq, Structural)]
pub enum RuntimePhase {
    Loading,
    Ready,
    Failed,
}

/// What is shown of the start of the application.
#[derive(Debug)]
pub struct RuntimeSnapshot {
    pub phase: RuntimePhase,
    pub message: Option<String>,
}

/// The application while it starts, once it runs, or why it does not.
pub enum RuntimeState<A> {
    Loading,
    Ready(A),
    Failed(String),
}

impl<A> RuntimeState<A> {
    /// The state before anything has been loaded.
    pub fn loading() -> (r: Self)
        ensures
            r is Loading,
    {
        RuntimeState::Loading
    }

    /// Notes that the application runs.
    pub fn install_ready(&mut self, app: A)
        ensures
            *final(self) == RuntimeState::Ready(app),
    {
        *self = RuntimeState::Ready(app);
    }

    /// Notes that the start failed.
    pub fn install_failed(&mut self, message: String)
        ensures
            *final(self) == RuntimeState::<A>::Failed(message),
    {
        *self = RuntimeState::Failed(message);
    }

    /// The application, if it runs.
    pub fn ready_app(&self) -> (r: Option<&A>)
        ensures
            r == match *self {
                RuntimeState::Ready(app) => Some(&app),
                _ => None,
            },
    {
        match self {
            RuntimeState::Ready(app) => Some(app),
            RuntimeState::Loading | RuntimeState::Failed(_) => None,
        }
    }

    /// What is shown of the state.
    pub fn snapshot(&self) -> (r: RuntimeSnapshot)
        ensures
            r.phase == match *self {
                RuntimeState::Loading => RuntimePhase::Loading,
                RuntimeState::Ready(_) => RuntimePhase::Ready,
                RuntimeState::Failed(_) => RuntimePhase::Failed,
            },
            r.message == match *self {
                RuntimeState::Failed(message) => Some(message),
                _ => None,
            },
    {
        match self {
            RuntimeState::Loading => RuntimeSnapshot { phase: RuntimePhase::Loading, message: None },
            RuntimeState::Ready(_) => RuntimeSnapshot { phase: RuntimePhase::Ready, message: None },
            RuntimeState::Failed(message) => RuntimeSnapshot {
                phase: RuntimePhase::Failed,
                message: Some(message.clone()),
            },
        }
    }
}

/// The anchor that survives is an image of the pair, and is not the rejected one.
pub proof fn surviving_anchor_is_the_other_side(
    rejected: ArenaHandle,
    pair_left: ArenaHandle,
    pair_right: ArenaHandle,
)
    ensures
        spec_surviving_local_anchor(rejected, pair_left, pair_right) matches Some(anchor) ==> {
            &&& pair_left == ArenaHandle::Local(anchor) || pair_right == ArenaHandle::Local(anchor)
            &&& rejected@ != ArenaHandle::Local(anchor)@
        },
{
}

} // verus!
