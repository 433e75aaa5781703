//! The story that the finished product is taken through: what has to be seen at each step, what is
//! wrong where it is not, and the pictures it is told with.
use crate::paths;
use crate::png;
use crate::png::Raster;
use crate::text;
use vstd::prelude::*;

verus! {

/// What the product says of itself.
#[derive(Debug)]
pub struct Observation {
    pub contract: String,
    pub mode: String,
    pub busy: bool,
    pub status: String,
    pub collection: Option<String>,
    pub visible_assets: usize,
    pub favorites: usize,
    pub duels: u64,
    pub pair_ready: bool,
    pub remote_pair: bool,
    pub remote_ready: usize,
    pub remote_promoting: usize,
    pub pair_rotations: Option<(u8, u8)>,
    pub images_per_row: u16,
    pub viewer_open: bool,
    pub viewer_ready: bool,
    pub guide_open: bool,
    pub settings_open: bool,
    pub text_edit_focused: bool,
}

/// A step of the story.
#[derive(Debug, Clone, Copy, PartialEq, Eq, Structural)]
pub enum Milestone {
    EmptyFirstContact,
    FourImageComparison,
    CommandGuide,
    ClosedGuide,
    Settings,
    ClosedSettings,
    FavoritePersisted,
    RotatedComparison,
    RecordedDuel,
    WithdrawnImage,
    CollectionBrowser,
    FullImageViewer,
    ImageCopied,
    ClosedViewer,
    RestoredEvidence,
    RemoteReservoir,
    RemoteChallenger,
    ImageRejection,
    CandidateAfterImageRejection,
    ChallengerAfterImageRejection,
    StreamRejection,
    CandidateAfterStreamRejection,
    ChallengerAfterStreamRejection,
    BackgroundAdmission,
    PromotedChallenger,
}

/// The product is idle and shows a pair.
pub open spec fn settled(o: Observation) -> bool {
    !o.busy && o.pair_ready
}

/// The step of the story is reached.
pub open spec fn is_reached(milestone: Milestone, o: Observation) -> bool {
    match milestone {
        Milestone::EmptyFirstContact => !o.busy && o.collection is None && !o.pair_ready,
        Milestone::FourImageComparison => settled(o) && o.visible_assets == 4,
        Milestone::CommandGuide => o.guide_open,
        Milestone::ClosedGuide => !o.guide_open,
        Milestone::Settings => o.settings_open,
        Milestone::ClosedSettings => !o.settings_open,
        Milestone::FavoritePersisted => o.favorites == 1 && o.pair_ready,
        Milestone::RotatedComparison => settled(o) && match o.pair_rotations {
            None => false,
            Some(rotations) => rotations.0 == 1 || rotations.1 == 1,
        },
        Milestone::RecordedDuel => settled(o) && o.duels == 1,
        Milestone::WithdrawnImage => settled(o) && o.visible_assets == 3,
        Milestone::CollectionBrowser => o.mode@ == "browse"@ && !o.busy,
        Milestone::FullImageViewer => o.viewer_open && o.viewer_ready,
        Milestone::ImageCopied => o.status@ == "IMAGE COPIED"@,
        Milestone::ClosedViewer => !o.viewer_open,
        Milestone::RestoredEvidence => settled(o) && o.visible_assets == 3 && o.favorites == 1
            && o.duels == 1,
        Milestone::RemoteReservoir => settled(o) && o.remote_ready == 1,
        Milestone::CandidateAfterImageRejection => settled(o) && o.remote_ready == 1,
        Milestone::CandidateAfterStreamRejection => settled(o) && o.remote_ready == 1,
        Milestone::RemoteChallenger => !o.busy && o.remote_pair,
        Milestone::ChallengerAfterImageRejection => !o.busy && o.remote_pair,
        Milestone::ChallengerAfterStreamRejection => !o.busy && o.remote_pair,
        Milestone::ImageRejection => settled(o) && !o.remote_pair,
        Milestone::StreamRejection => settled(o) && !o.remote_pair,
        Milestone::BackgroundAdmission => settled(o) && o.remote_promoting == 1,
        Milestone::PromotedChallenger => !o.busy && !o.remote_pair && o.visible_assets == 4 && o.duels == 5
            && o.remote_promoting == 0,
    }
}

/// Whether the step of the story is reached.
pub fn reached(milestone: Milestone, o: &Observation) -> (r: bool)
    ensures
        r == is_reached(milestone, *o),
{
    let settled = !o.busy && o.pair_ready;
    match milestone {
        Milestone::EmptyFirstContact => !o.busy && o.collection.is_none() && !o.pair_ready,
        Milestone::FourImageComparison => settled && o.visible_assets == 4,
        Milestone::CommandGuide => o.guide_open,
        Milestone::ClosedGuide => !o.guide_open,
        Milestone::Settings => o.settings_open,
        Milestone::ClosedSettings => !o.settings_open,
        Milestone::FavoritePersisted => o.favorites == 1 && o.pair_ready,
        Milestone::RotatedComparison => settled && match o.pair_rotations {
            None => false,
            Some((left, right)) => left == 1 || right == 1,
        },
        Milestone::RecordedDuel => settled && o.duels == 1,
        Milestone::WithdrawnImage => settled && o.visible_assets == 3,
        Milestone::CollectionBrowser => text::same_text(o.mode.as_str(), "browse") && !o.busy,
        Milestone::FullImageViewer => o.viewer_open && o.viewer_ready,
        Milestone::ImageCopied => text::same_text(o.status.as_str(), "IMAGE COPIED"),
        Milestone::ClosedViewer => !o.viewer_open,
        Milestone::RestoredEvidence => settled && o.visible_assets == 3 && o.favorites == 1 && o.duels == 1,
        Milestone::RemoteReservoir => settled && o.remote_ready == 1,
        Milestone::CandidateAfterImageRejection => settled && o.remote_ready == 1,
        Milestone::CandidateAfterStreamRejection => settled && o.remote_ready == 1,
        Milestone::RemoteChallenger => !o.busy && o.remote_pair,
        Milestone::ChallengerAfterImageRejection => !o.busy && o.remote_pair,
        Milestone::ChallengerAfterStreamRejection => !o.busy && o.remote_pair,
        Milestone::ImageRejection => settled && !o.remote_pair,
        Milestone::StreamRejection => settled && !o.remote_pair,
        Milestone::BackgroundAdmission => settled && o.remote_promoting == 1,
        Milestone::PromotedChallenger => !o.busy && !o.remote_pair && o.visible_assets == 4 && o.duels == 5
            && o.remote_promoting == 0,
    }
}

/// What is waited for at a step.
pub open spec fn label_of(milestone: Milestone) -> Seq<char> {
    match milestone {
        Milestone::EmptyFirstContact => "empty first contact"@,
        Milestone::FourImageComparison => "four-image comparison"@,
        Milestone::CommandGuide => "generated command guide"@,
        Milestone::ClosedGuide => "closed command guide"@,
        Milestone::Settings => "application settings"@,
        Milestone::ClosedSettings => "closed settings"@,
        Milestone::FavoritePersisted => "favorite to persist"@,
        Milestone::RotatedComparison => "rotated comparison"@,
        Milestone::RecordedDuel => "recorded duel"@,
        Milestone::WithdrawnImage => "withdrawn image"@,
        Milestone::CollectionBrowser => "collection browser"@,
        Milestone::FullImageViewer => "full-image viewer"@,
        Milestone::ImageCopied => "image copied"@,
        Milestone::ClosedViewer => "closed full-image viewer"@,
        Milestone::RestoredEvidence => "restored collection and evidence"@,
        Milestone::RemoteReservoir => "bounded remote reservoir"@,
        Milestone::RemoteChallenger => "remote challenger"@,
        Milestone::ImageRejection => "image rejection"@,
        Milestone::CandidateAfterImageRejection => "candidate after image rejection"@,
        Milestone::ChallengerAfterImageRejection => "challenger after image rejection"@,
        Milestone::StreamRejection => "stream rejection"@,
        Milestone::CandidateAfterStreamRejection => "candidate after stream rejection"@,
        Milestone::ChallengerAfterStreamRejection => "challenger after stream rejection"@,
        Milestone::BackgroundAdmission => "background archive admission"@,
        Milestone::PromotedChallenger => "promoted remote challenger"@,
    }
}

/// What is waited for at a step.
pub fn label(milestone: Milestone) -> (r: &'static str)
    ensures
        r@ == label_of(milestone),
{
    match milestone {
        Milestone::EmptyFirstContact => "empty first contact",
        Milestone::FourImageComparison => "four-image comparison",
        Milestone::CommandGuide => "generated command guide",
        Milestone::ClosedGuide => "closed command guide",
        Milestone::Settings => "application settings",
        Milestone::ClosedSettings => "closed settings",
        Milestone::FavoritePersisted => "favorite to persist",
        Milestone::RotatedComparison => "rotated comparison",
        Milestone::RecordedDuel => "recorded duel",
        Milestone::WithdrawnImage => "withdrawn image",
        Milestone::CollectionBrowser => "collection browser",
        Milestone::FullImageViewer => "full-image viewer",
        Milestone::ImageCopied => "image copied",
        Milestone::ClosedViewer => "closed full-image viewer",
        Milestone::RestoredEvidence => "restored collection and evidence",
        Milestone::RemoteReservoir => "bounded remote reservoir",
        Milestone::RemoteChallenger => "remote challenger",
        Milestone::ImageRejection => "image rejection",
        Milestone::CandidateAfterImageRejection => "candidate after image rejection",
        Milestone::ChallengerAfterImageRejection => "challenger after image rejection",
        Milestone::StreamRejection => "stream rejection",
        Milestone::CandidateAfterStreamRejection => "candidate after stream rejection",
        Milestone::ChallengerAfterStreamRejection => "challenger after stream rejection",
        Milestone::BackgroundAdmission => "background archive admission",
        Milestone::PromotedChallenger => "promoted remote challenger",
    }
}

/// What is wrong with what is seen at a step, if anything is: the first complaint in this order.
pub open spec fn complaint_of(milestone: Milestone, o: Observation, fingerprint: Seq<char>) -> Option<
    Seq<char>,
> {
    match milestone {
        Milestone::EmptyFirstContact => if o.visible_assets == 0 && o.favorites == 0 && o.duels == 0 {
            None
        } else {
            Some("empty first contact projected collection state"@)
        },
        Milestone::FourImageComparison => if o.contract@ != fingerprint {
            Some("UI contract mismatch"@)
        } else if o.mode@ != "compare"@ {
            Some("Picmash did not open in Compare"@)
        } else if o.collection is None {
            Some("collection path was not projected"@)
        } else if o.guide_open {
            Some("Help opened without an intent"@)
        } else if o.settings_open {
            Some("Settings opened without an intent"@)
        } else if o.text_edit_focused {
            Some("a hidden editor stole keyboard focus"@)
        } else {
            None
        },
        Milestone::CollectionBrowser => if "FAULT"@.is_prefix_of(o.status@) {
            Some("browser opened in fault: "@ + o.status@)
        } else {
            None
        },
        Milestone::FullImageViewer => if o.images_per_row == 5 {
            None
        } else {
            Some("browser did not preserve its configured density"@)
        },
        Milestone::RestoredEvidence => if o.contract@ != fingerprint {
            Some("restored UI contract mismatch"@)
        } else {
            None
        },
        Milestone::RemoteReservoir => if o.remote_pair {
            Some("remote work interrupted a live pair"@)
        } else {
            None
        },
        Milestone::RemoteChallenger => if o.remote_ready == 1 {
            None
        } else {
            Some("displayed challenger escaped the reservoir bound"@)
        },
        Milestone::PromotedChallenger => if "FAULT"@.is_prefix_of(o.status@) {
            Some("promotion faulted: "@ + o.status@)
        } else {
            None
        },
        _ => None,
    }
}

/// What is wrong with what is seen at a step, if anything is.
pub fn complaint(milestone: Milestone, o: &Observation, fingerprint: &str) -> (r: Option<String>)
    ensures
        complaint_of(milestone, *o, fingerprint@) == match r {
            None => None,
            Some(message) => Some(message@),
        },
{
    match milestone {
        Milestone::EmptyFirstContact => {
            if o.visible_assets == 0 && o.favorites == 0 && o.duels == 0 {
                None
            } else {
                Some("empty first contact projected collection state".to_owned())
            }
        },
        Milestone::FourImageComparison => {
            if !text::same_text(o.contract.as_str(), fingerprint) {
                Some("UI contract mismatch".to_owned())
            } else if !text::same_text(o.mode.as_str(), "compare") {
                Some("Picmash did not open in Compare".to_owned())
            } else if o.collection.is_none() {
                Some("collection path was not projected".to_owned())
            } else if o.guide_open {
                Some("Help opened without an intent".to_owned())
            } else if o.settings_open {
                Some("Settings opened without an intent".to_owned())
            } else if o.text_edit_focused {
                Some("a hidden editor stole keyboard focus".to_owned())
            } else {
                None
            }
        },
        Milestone::CollectionBrowser => {
            if text::starts_with(o.status.as_str(), "FAULT") {
                Some("browser opened in fault: ".to_owned().concat(o.status.as_str()))
            } else {
                None
            }
        },
        Milestone::FullImageViewer => {
            if o.images_per_row == 5 {
                None
            } else {
                Some("browser did not preserve its configured density".to_owned())
            }
        },
        Milestone::RestoredEvidence => {
            if !text::same_text(o.contract.as_str(), fingerprint) {
                Some("restored UI contract mismatch".to_owned())
            } else {
                None
            }
        },
        Milestone::RemoteReservoir => {
            if o.remote_pair {
                Some("remote work interrupted a live pair".to_owned())
            } else {
                None
            }
        },
        Milestone::RemoteChallenger => {
            if o.remote_ready == 1 {
                None
            } else {
                Some("displayed challenger escaped the reservoir bound".to_owned())
            }
        },
        Milestone::PromotedChallenger => {
            if text::starts_with(o.status.as_str(), "FAULT") {
                Some("promotion faulted: ".to_owned().concat(o.status.as_str()))
            } else {
                None
            }
        },
        _ => None,
    }
}

/// A side of the pair.
#[derive(Debug, Clone, Copy, PartialEq, Eq, Structural)]
pub enum Side {
    Left,
    Right,
}

/// Something on the screen.
#[derive(Debug, Clone, Copy, PartialEq, Eq, Structural)]
pub enum StoryTarget {
    OpenCollection,
    Favorite(Side),
    Rotate(Side),
    Choice(Side),
    Hide(Side),
    RejectStream(Side),
    BrowseMode,
    Browser,
    BrowseTile,
    Viewer,
    ViewerCopy,
    ViewerClose,
    /// The size of the letters, among the settings.
    FontScale,
}

/// A key.
#[derive(Debug, Clone, Copy, PartialEq, Eq, Structural)]
pub enum StoryKey {
    Function(u8),
    Escape,
    End,
    Character(char),
    AltCharacter(char),
}

/// A picture that is taken of the screen.
#[derive(Debug, Clone, Copy, PartialEq, Eq, Structural)]
pub enum Shot {
    FirstContact,
    Compare,
    Browse,
    Viewer,
    Restored,
    Remote,
}

/// The name of a picture that is taken of the screen.
pub fn shot_name(shot: Shot) -> (r: &'static str)
    ensures
        r@ == match shot {
            Shot::FirstContact => "picmash-first-contact.png"@,
            Shot::Compare => "picmash-compare.png"@,
            Shot::Browse => "picmash-browse.png"@,
            Shot::Viewer => "picmash-viewer.png"@,
            Shot::Restored => "picmash-restored.png"@,
            Shot::Remote => "picmash-remote.png"@,
        },
{
    match shot {
        Shot::FirstContact => "picmash-first-contact.png",
        Shot::Compare => "picmash-compare.png",
        Shot::Browse => "picmash-browse.png",
        Shot::Viewer => "picmash-viewer.png",
        Shot::Restored => "picmash-restored.png",
        Shot::Remote => "picmash-remote.png",
    }
}

/// What is done, or waited for, in the story.
#[derive(Debug, Clone, Copy, PartialEq, Eq, Structural)]
pub enum StoryStep {
    Launch { with_collection: bool },
    /// Wait for a step that comes at once.
    Wait(Milestone),
    /// Wait for a step that needs work to be done.
    WaitLong(Milestone),
    Press(StoryKey),
    Click(StoryTarget),
    /// Click where the pair on the screen has no outside image yet.
    ClickUnlessRemotePair(StoryTarget),
    /// Wait until something is on the screen.
    Find(StoryTarget),
    Hover(StoryTarget),
    /// Wait for this many new frames.
    Frames(u8),
    Capture(Shot),
    /// An outside image has to lie in the collection as JPEG XL.
    ExpectImportedJxl,
    Terminate,
}

/// How many seconds are waited for what comes at once.
pub const WAIT_SECONDS: u64 = 8;

/// How many seconds are waited for what needs work to be done.
pub const STARTUP_SECONDS: u64 = 45;

/// How many seconds a step of the story may take, if anything is waited for.
pub fn patience(step: StoryStep) -> (r: Option<u64>)
    ensures
        r == match step {
            StoryStep::Wait(_) => Some(WAIT_SECONDS),
            StoryStep::WaitLong(_) => Some(STARTUP_SECONDS),
            StoryStep::Click(_) => Some(WAIT_SECONDS),
            StoryStep::ClickUnlessRemotePair(_) => Some(WAIT_SECONDS),
            StoryStep::Find(_) => Some(WAIT_SECONDS),
            StoryStep::Hover(_) => Some(WAIT_SECONDS),
            StoryStep::Frames(_) => Some(WAIT_SECONDS),
            _ => None,
        },
{
    match step {
        StoryStep::Wait(_) => Some(WAIT_SECONDS),
        StoryStep::WaitLong(_) => Some(STARTUP_SECONDS),
        StoryStep::Click(_) => Some(WAIT_SECONDS),
        StoryStep::ClickUnlessRemotePair(_) => Some(WAIT_SECONDS),
        StoryStep::Find(_) => Some(WAIT_SECONDS),
        StoryStep::Hover(_) => Some(WAIT_SECONDS),
        StoryStep::Frames(_) => Some(WAIT_SECONDS),
        _ => None,
    }
}

/// The product without a collection.
pub open spec fn empty_session_story() -> Seq<StoryStep> {
    seq![
        StoryStep::Launch { with_collection: false },
        StoryStep::Wait(Milestone::EmptyFirstContact),
        StoryStep::Find(StoryTarget::OpenCollection),
        StoryStep::Capture(Shot::FirstContact),
        StoryStep::Terminate,
    ]
}

/// The product without a collection.
pub fn empty_session() -> (r: Vec<StoryStep>)
    ensures
        r@ == empty_session_story(),
{
    let mut r: Vec<StoryStep> = Vec::new();
    r.push(StoryStep::Launch { with_collection: false });
    r.push(StoryStep::Wait(Milestone::EmptyFirstContact));
    r.push(StoryStep::Find(StoryTarget::OpenCollection));
    r.push(StoryStep::Capture(Shot::FirstContact));
    r.push(StoryStep::Terminate);
    assert(r@ =~= empty_session_story());
    r
}

/// The first sitting: guide and settings, a favourite, a turned image, a duel, a hidden image, and
/// the collection by preference.
pub open spec fn first_session_story() -> Seq<StoryStep> {
    seq![
        StoryStep::Launch { with_collection: true },
        StoryStep::WaitLong(Milestone::FourImageComparison),
        StoryStep::Capture(Shot::Compare),
        StoryStep::Press(StoryKey::Function(1)),
        StoryStep::Wait(Milestone::CommandGuide),
        StoryStep::Press(StoryKey::Escape),
        StoryStep::Wait(Milestone::ClosedGuide),
        StoryStep::Press(StoryKey::Function(2)),
        StoryStep::Wait(Milestone::Settings),
        StoryStep::Click(StoryTarget::FontScale),
        StoryStep::Frames(1),
        StoryStep::Press(StoryKey::End),
        StoryStep::Frames(1),
        StoryStep::Press(StoryKey::Escape),
        StoryStep::Wait(Milestone::ClosedSettings),
        StoryStep::Click(StoryTarget::Favorite(Side::Left)),
        StoryStep::Wait(Milestone::FavoritePersisted),
        StoryStep::Click(StoryTarget::Rotate(Side::Left)),
        StoryStep::WaitLong(Milestone::RotatedComparison),
        StoryStep::Click(StoryTarget::Choice(Side::Left)),
        StoryStep::WaitLong(Milestone::RecordedDuel),
        StoryStep::Click(StoryTarget::Hide(Side::Right)),
        StoryStep::WaitLong(Milestone::WithdrawnImage),
        StoryStep::Click(StoryTarget::BrowseMode),
        StoryStep::Wait(Milestone::CollectionBrowser),
        StoryStep::Find(StoryTarget::Browser),
        StoryStep::Frames(4),
        StoryStep::Find(StoryTarget::BrowseTile),
        StoryStep::Hover(StoryTarget::BrowseTile),
        StoryStep::Frames(4),
        StoryStep::Capture(Shot::Browse),
        StoryStep::Click(StoryTarget::BrowseTile),
        StoryStep::WaitLong(Milestone::FullImageViewer),
        StoryStep::Find(StoryTarget::Viewer),
        StoryStep::Find(StoryTarget::ViewerCopy),
        StoryStep::Find(StoryTarget::ViewerClose),
        StoryStep::Frames(2),
        StoryStep::Capture(Shot::Viewer),
        StoryStep::Press(StoryKey::Character('c')),
        StoryStep::Wait(Milestone::ImageCopied),
        StoryStep::Click(StoryTarget::ViewerClose),
        StoryStep::Wait(Milestone::ClosedViewer),
        StoryStep::Terminate,
    ]
}

/// The first sitting.
pub fn first_session() -> (r: Vec<StoryStep>)
    ensures
        r@ == first_session_story(),
{
    let mut r: Vec<StoryStep> = Vec::new();
    r.push(StoryStep::Launch { with_collection: true });
    r.push(StoryStep::WaitLong(Milestone::FourImageComparison));
    r.push(StoryStep::Capture(Shot::Compare));
    r.push(StoryStep::Press(StoryKey::Function(1)));
    r.push(StoryStep::Wait(Milestone::CommandGuide));
    r.push(StoryStep::Press(StoryKey::Escape));
    r.push(StoryStep::Wait(Milestone::ClosedGuide));
    r.push(StoryStep::Press(StoryKey::Function(2)));
    r.push(StoryStep::Wait(Milestone::Settings));
    r.push(StoryStep::Click(StoryTarget::FontScale));
    r.push(StoryStep::Frames(1));
    r.push(StoryStep::Press(StoryKey::End));
    r.push(StoryStep::Frames(1));
    r.push(StoryStep::Press(StoryKey::Escape));
    r.push(StoryStep::Wait(Milestone::ClosedSettings));
    r.push(StoryStep::Click(StoryTarget::Favorite(Side::Left)));
    r.push(StoryStep::Wait(Milestone::FavoritePersisted));
    r.push(StoryStep::Click(StoryTarget::Rotate(Side::Left)));
    r.push(StoryStep::WaitLong(Milestone::RotatedComparison));
    r.push(StoryStep::Click(StoryTarget::Choice(Side::Left)));
    r.push(StoryStep::WaitLong(Milestone::RecordedDuel));
    r.push(StoryStep::Click(StoryTarget::Hide(Side::Right)));
    r.push(StoryStep::WaitLong(Milestone::WithdrawnImage));
    r.push(StoryStep::Click(StoryTarget::BrowseMode));
    r.push(StoryStep::Wait(Milestone::CollectionBrowser));
    r.push(StoryStep::Find(StoryTarget::Browser));
    r.push(StoryStep::Frames(4));
    r.push(StoryStep::Find(StoryTarget::BrowseTile));
    r.push(StoryStep::Hover(StoryTarget::BrowseTile));
    r.push(StoryStep::Frames(4));
    r.push(StoryStep::Capture(Shot::Browse));
    r.push(StoryStep::Click(StoryTarget::BrowseTile));
    r.push(StoryStep::WaitLong(Milestone::FullImageViewer));
    r.push(StoryStep::Find(StoryTarget::Viewer));
    r.push(StoryStep::Find(StoryTarget::ViewerCopy));
    r.push(StoryStep::Find(StoryTarget::ViewerClose));
    r.push(StoryStep::Frames(2));
    r.push(StoryStep::Capture(Shot::Viewer));
    r.push(StoryStep::Press(StoryKey::Character('c')));
    r.push(StoryStep::Wait(Milestone::ImageCopied));
    r.push(StoryStep::Click(StoryTarget::ViewerClose));
    r.push(StoryStep::Wait(Milestone::ClosedViewer));
    r.push(StoryStep::Terminate);
    assert(r@ =~= first_session_story());
    r
}

/// The next sitting finds everything as it was left.
pub open spec fn restored_session_story() -> Seq<StoryStep> {
    seq![
        StoryStep::Launch { with_collection: false },
        StoryStep::WaitLong(Milestone::RestoredEvidence),
        StoryStep::Capture(Shot::Restored),
        StoryStep::Terminate,
    ]
}

/// The next sitting finds everything as it was left.
pub fn restored_session() -> (r: Vec<StoryStep>)
    ensures
        r@ == restored_session_story(),
{
    let mut r: Vec<StoryStep> = Vec::new();
    r.push(StoryStep::Launch { with_collection: false });
    r.push(StoryStep::WaitLong(Milestone::RestoredEvidence));
    r.push(StoryStep::Capture(Shot::Restored));
    r.push(StoryStep::Terminate);
    assert(r@ =~= restored_session_story());
    r
}

/// A sitting with outside images: one is turned down, then a whole stream, and one is taken in.
pub open spec fn remote_session_story() -> Seq<StoryStep> {
    seq![
        StoryStep::Launch { with_collection: false },
        StoryStep::WaitLong(Milestone::RemoteReservoir),
        StoryStep::Click(StoryTarget::Choice(Side::Left)),
        StoryStep::WaitLong(Milestone::RemoteChallenger),
        StoryStep::Find(StoryTarget::RejectStream(Side::Right)),
        StoryStep::Press(StoryKey::Character('x')),
        StoryStep::Wait(Milestone::ImageRejection),
        StoryStep::WaitLong(Milestone::CandidateAfterImageRejection),
        StoryStep::ClickUnlessRemotePair(StoryTarget::Choice(Side::Left)),
        StoryStep::WaitLong(Milestone::ChallengerAfterImageRejection),
        StoryStep::Press(StoryKey::AltCharacter('j')),
        StoryStep::Wait(Milestone::StreamRejection),
        StoryStep::WaitLong(Milestone::CandidateAfterStreamRejection),
        StoryStep::ClickUnlessRemotePair(StoryTarget::Choice(Side::Left)),
        StoryStep::WaitLong(Milestone::ChallengerAfterStreamRejection),
        StoryStep::Frames(4),
        StoryStep::Capture(Shot::Remote),
        StoryStep::Click(StoryTarget::Choice(Side::Right)),
        StoryStep::Wait(Milestone::BackgroundAdmission),
        StoryStep::Terminate,
        StoryStep::Launch { with_collection: false },
        StoryStep::WaitLong(Milestone::PromotedChallenger),
        StoryStep::ExpectImportedJxl,
        StoryStep::Terminate,
    ]
}

/// A sitting with outside images.
pub fn remote_session() -> (r: Vec<StoryStep>)
    ensures
        r@ == remote_session_story(),
{
    let mut r: Vec<StoryStep> = Vec::new();
    r.push(StoryStep::Launch { with_collection: false });
    r.push(StoryStep::WaitLong(Milestone::RemoteReservoir));
    r.push(StoryStep::Click(StoryTarget::Choice(Side::Left)));
    r.push(StoryStep::WaitLong(Milestone::RemoteChallenger));
    r.push(StoryStep::Find(StoryTarget::RejectStream(Side::Right)));
    r.push(StoryStep::Press(StoryKey::Character('x')));
    r.push(StoryStep::Wait(Milestone::ImageRejection));
    r.push(StoryStep::WaitLong(Milestone::CandidateAfterImageRejection));
    r.push(StoryStep::ClickUnlessRemotePair(StoryTarget::Choice(Side::Left)));
    r.push(StoryStep::WaitLong(Milestone::ChallengerAfterImageRejection));
    r.push(StoryStep::Press(StoryKey::AltCharacter('j')));
    r.push(StoryStep::Wait(Milestone::StreamRejection));
    r.push(StoryStep::WaitLong(Milestone::CandidateAfterStreamRejection));
    r.push(StoryStep::ClickUnlessRemotePair(StoryTarget::Choice(Side::Left)));
    r.push(StoryStep::WaitLong(Milestone::ChallengerAfterStreamRejection));
    r.push(StoryStep::Frames(4));
    r.push(StoryStep::Capture(Shot::Remote));
    r.push(StoryStep::Click(StoryTarget::Choice(Side::Right)));
    r.push(StoryStep::Wait(Milestone::BackgroundAdmission));
    r.push(StoryStep::Terminate);
    r.push(StoryStep::Launch { with_collection: false });
    r.push(StoryStep::WaitLong(Milestone::PromotedChallenger));
    r.push(StoryStep::ExpectImportedJxl);
    r.push(StoryStep::Terminate);
    assert(r@ =~= remote_session_story());
    r
}

/// Whether a file is one that an outside image was taken in as.
pub fn is_jxl_file(path: &str) -> (r: bool)
    ensures
        r == (paths::extension(path@) == Some("jxl"@)),
{
    match paths::extension_of(path) {
        None => false,
        Some(ext) => text::same_text(ext.as_str(), "jxl"),
    }
}

/// At most the largest byte.
pub open spec fn as_byte(n: int) -> u8 {
    if n > 255 {
        255
    } else {
        n as u8
    }
}

/// The colour of a pixel of a test picture: bands, over a glow from the middle.
pub open spec fn pixel_of(seed: u8, width: u32, height: u32, x: int, y: int) -> Seq<u8> {
    let band = (x / 48 + y / 52 + seed) % 4;
    let dx = if x < width / 2 {
        width / 2 - x
    } else {
        x - width / 2
    };
    let dy = if y < height / 2 {
        height / 2 - y
    } else {
        y - height / 2
    };
    let radial = ((dx + dy) / 7) % 180;
    seq![
        as_byte(as_byte(36 + as_byte(seed * 41)) + radial / 3),
        as_byte(24 + as_byte(band * 34)),
        as_byte(18 + as_byte((3 - band) * 29)),
        255u8,
    ]
}

fn sum_byte(a: u8, b: u8) -> (r: u8)
    ensures
        r == as_byte(a + b),
{
    a.saturating_add(b)
}

fn scaled_byte(a: u8, b: u8) -> (r: u8)
    ensures
        r == as_byte(a * b),
{
    match a.checked_mul(b) {
        Some(n) => n,
        None => 255,
    }
}

fn distance(a: u32, b: u32) -> (r: u32)
    ensures
        r == if a < b {
            b - a
        } else {
            a - b
        },
{
    if a < b {
        b - a
    } else {
        a - b
    }
}

/// The colour of a pixel of a test picture.
pub fn pixel(seed: u8, width: u32, height: u32, x: u32, y: u32) -> (r: [u8; 4])
    requires
        x < width,
        y < height,
    ensures
        r@ == pixel_of(seed, width, height, x as int, y as int),
{
    let band: u8 = ((x / 48 + y / 52 + seed as u32) % 4) as u8;
    let radial: u8 = (((distance(x, width / 2) + distance(y, height / 2)) / 7) % 180) as u8;
    let warm = sum_byte(sum_byte(36, scaled_byte(seed, 41)), radial / 3);
    let cool = sum_byte(24, scaled_byte(band, 34));
    let deep = sum_byte(18, scaled_byte(3 - band, 29));
    let r: [u8; 4] = [warm, cool, deep, 255];
    assert(r@ =~= pixel_of(seed, width, height, x as int, y as int));
    r
}

/// The first `n` pixels of a row of a test picture.
pub open spec fn row_of(seed: u8, width: u32, height: u32, y: int, n: int) -> Seq<u8>
    decreases n,
{
    if n <= 0 {
        Seq::empty()
    } else {
        row_of(seed, width, height, y, n - 1) + pixel_of(seed, width, height, n - 1, y)
    }
}

/// The first `n` rows of a test picture.
pub open spec fn rows_of(seed: u8, width: u32, height: u32, n: int) -> Seq<u8>
    decreases n,
{
    if n <= 0 {
        Seq::empty()
    } else {
        rows_of(seed, width, height, n - 1) + row_of(seed, width, height, n - 1, width as int)
    }
}

/// The pixels of a test picture, row by row.
pub fn fixture_pixels(seed: u8, width: u32, height: u32) -> (r: Vec<u8>)
    ensures
        r@ == rows_of(seed, width, height, height as int),
{
    let mut r: Vec<u8> = Vec::new();
    let mut y: u32 = 0;
    while y < height
        invariant
            y <= height,
            r@ == rows_of(seed, width, height, y as int),
        decreases height - y,
    {
        let ghost before = r@;
        let mut x: u32 = 0;
        while x < width
            invariant
                x <= width,
                y < height,
                r@ == before + row_of(seed, width, height, y as int, x as int),
            decreases width - x,
        {
            let p = pixel(seed, width, height, x, y);
            let ghost so_far = r@;
            r.push(p[0]);
            r.push(p[1]);
            r.push(p[2]);
            r.push(p[3]);
            assert(r@ =~= so_far + pixel_of(seed, width, height, x as int, y as int));
            x += 1;
            assert(r@ =~= before + row_of(seed, width, height, y as int, x as int));
        }
        y += 1;
    }
    r
}

/// Every row has four bytes for each of its pixels.
proof fn lemma_rows_length(seed: u8, width: u32, height: u32, n: int)
    requires
        n >= 0,
    ensures
        rows_of(seed, width, height, n).len() == 4 * (width as int * n),
    decreases n,
{
    if n > 0 {
        lemma_rows_length(seed, width, height, n - 1);
        rows_are_full(seed, width, height, n - 1, width as int);
        assert(width as int * n == width as int * (n - 1) + width) by (nonlinear_arith);
    } else {
        assert(width as int * n == 0) by (nonlinear_arith)
            requires
                n == 0,
        ;
    }
}

/// A test picture as PNG, or why it cannot be one.
pub fn fixture(seed: u8, width: u32, height: u32) -> (r: Result<Vec<u8>, String>)
    ensures
        png::png_encoding(rows_of(seed, width, height, height as int), width, height) == match r {
            Ok(bytes) => Ok::<Seq<u8>, Seq<char>>(bytes@),
            Err(error) => Err::<Seq<u8>, Seq<char>>(error@),
        },
{
    let pixels = fixture_pixels(seed, width, height);
    proof {
        lemma_rows_length(seed, width, height, height as int);
    }
    png::encode_png(Raster { width, height, pixels })
}

/// The settings under which the story of outside images is told, for images in `root`.
pub fn remote_settings(root: &str) -> (r: String)
    ensures
        r@ == settings_head() + root@ + settings_tail(),
{
    let mut r = "living_water = true\nimages_per_row = 5\n\n[remote]\nenabled = true\nsample_probability = 1.0\nreservoir_capacity = 1\nmetadata_capacity = 8\n\n[[remote.sources]]\nweight = 1.0\nimport_policy = \"not_x\"\nscan_interval_seconds = 15\n\n[remote.sources.upstream]\ntype = \"local_directory\"\n\n[remote.sources.upstream.settings]\nroot = \"".to_owned();
    r.append(root);
    r.append("\"\nrecurse = true\n");
    r
}

/// The settings up to the directory.
pub open spec fn settings_head() -> Seq<char> {
    "living_water = true\nimages_per_row = 5\n\n[remote]\nenabled = true\nsample_probability = 1.0\nreservoir_capacity = 1\nmetadata_capacity = 8\n\n[[remote.sources]]\nweight = 1.0\nimport_policy = \"not_x\"\nscan_interval_seconds = 15\n\n[remote.sources.upstream]\ntype = \"local_directory\"\n\n[remote.sources.upstream.settings]\nroot = \""@
}

/// The settings behind the directory.
pub open spec fn settings_tail() -> Seq<char> {
    "\"\nrecurse = true\n"@
}

/// A picture fills its frame: four bytes for each pixel of a row.
pub proof fn rows_are_full(seed: u8, width: u32, height: u32, y: int, n: int)
    requires
        n >= 0,
    ensures
        row_of(seed, width, height, y, n).len() == 4 * n,
    decreases n,
{
    if n > 0 {
        rows_are_full(seed, width, height, y, n - 1);
    }
}

} // verus!
