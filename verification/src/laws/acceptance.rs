//! What has to be seen in the story of the product.
use crate::acceptance;
use crate::acceptance::{Milestone, Observation, Side, StoryKey, StoryStep, StoryTarget};
use vstd::prelude::*;

verus! {

/// While the product is at work no step is reached but those about what lies over the screen, a favourite
/// and a copied image.
pub proof fn steps_wait_for_the_product(milestone: Milestone, o: Observation)
    requires
        o.busy,
        acceptance::is_reached(milestone, o),
    ensures
        milestone is CommandGuide || milestone is ClosedGuide || milestone is Settings || milestone
            is ClosedSettings || milestone is FavoritePersisted || milestone is FullImageViewer || milestone
            is ImageCopied || milestone is ClosedViewer,
{
}

/// What is opened is seen, and once it is closed it is not.
pub proof fn what_is_closed_is_gone(o: Observation)
    ensures
        acceptance::is_reached(Milestone::CommandGuide, o) <==> o.guide_open,
        acceptance::is_reached(Milestone::ClosedGuide, o) <==> !o.guide_open,
        acceptance::is_reached(Milestone::Settings, o) <==> o.settings_open,
        acceptance::is_reached(Milestone::ClosedSettings, o) <==> !o.settings_open,
        acceptance::is_reached(Milestone::FullImageViewer, o) <==> o.viewer_open && o.viewer_ready,
        acceptance::is_reached(Milestone::ClosedViewer, o) <==> !o.viewer_open,
{
}

/// A restored sitting has the favourite, the duel and the three images that the first one left.
pub proof fn what_was_done_is_restored(o: Observation)
    ensures
        acceptance::is_reached(Milestone::RestoredEvidence, o) <==> !o.busy && o.pair_ready
            && o.visible_assets == 3 && o.favorites == 1 && o.duels == 1,
        acceptance::is_reached(Milestone::FavoritePersisted, o) <==> o.favorites == 1 && o.pair_ready,
        acceptance::is_reached(Milestone::RecordedDuel, o) <==> !o.busy && o.pair_ready && o.duels == 1,
        acceptance::is_reached(Milestone::WithdrawnImage, o) <==> !o.busy && o.pair_ready
            && o.visible_assets == 3,
        acceptance::is_reached(Milestone::FourImageComparison, o) <==> !o.busy && o.pair_ready
            && o.visible_assets == 4,
{
}

/// One outside image is held ready at a time; turned down it leaves the pair, and taken in it is one of
/// four images.
pub proof fn outside_images_come_one_at_a_time(o: Observation)
    ensures
        acceptance::is_reached(Milestone::RemoteReservoir, o) <==> !o.busy && o.pair_ready
            && o.remote_ready == 1,
        acceptance::is_reached(Milestone::RemoteChallenger, o) <==> !o.busy && o.remote_pair,
        acceptance::is_reached(Milestone::ImageRejection, o) <==> !o.busy && o.pair_ready
            && !o.remote_pair,
        acceptance::is_reached(Milestone::StreamRejection, o) <==> !o.busy && o.pair_ready
            && !o.remote_pair,
        acceptance::is_reached(Milestone::BackgroundAdmission, o) <==> !o.busy && o.pair_ready
            && o.remote_promoting == 1,
        acceptance::is_reached(Milestone::PromotedChallenger, o) <==> !o.busy && !o.remote_pair
            && o.visible_assets == 4 && o.duels == 5 && o.remote_promoting == 0,
{
}

/// Nothing is complained about where nothing was promised: at the other steps than these.
pub proof fn complaints_are_made_where_promises_are(
    milestone: Milestone,
    o: Observation,
    fingerprint: Seq<char>,
)
    requires
        acceptance::complaint_of(milestone, o, fingerprint) is Some,
    ensures
        milestone is EmptyFirstContact ==> o.visible_assets != 0 || o.favorites != 0 || o.duels != 0,
        milestone is FourImageComparison ==> o.contract@ != fingerprint || o.mode@ != "compare"@
            || o.collection is None || o.guide_open || o.settings_open || o.text_edit_focused,
        milestone is CollectionBrowser || milestone is PromotedChallenger ==> "FAULT"@.is_prefix_of(
            o.status@,
        ),
        milestone is FullImageViewer ==> o.images_per_row != 5,
        milestone is RestoredEvidence ==> o.contract@ != fingerprint,
        milestone is RemoteReservoir ==> o.remote_pair,
        milestone is RemoteChallenger ==> o.remote_ready != 1,
        milestone is EmptyFirstContact || milestone is FourImageComparison || milestone
            is CollectionBrowser || milestone is FullImageViewer || milestone is RestoredEvidence
            || milestone is RemoteReservoir || milestone is RemoteChallenger || milestone
            is PromotedChallenger,
{
}

/// What was promised at a step and is not seen is complained about.
pub proof fn broken_promises_are_complained_about(
    milestone: Milestone,
    o: Observation,
    fingerprint: Seq<char>,
)
    requires
        acceptance::complaint_of(milestone, o, fingerprint) is None,
    ensures
        milestone is EmptyFirstContact ==> o.visible_assets == 0 && o.favorites == 0 && o.duels == 0,
        milestone is FourImageComparison ==> o.contract@ == fingerprint && o.mode@ == "compare"@
            && o.collection is Some && !o.guide_open && !o.settings_open && !o.text_edit_focused,
        milestone is CollectionBrowser || milestone is PromotedChallenger ==> !"FAULT"@.is_prefix_of(
            o.status@,
        ),
        milestone is FullImageViewer ==> o.images_per_row == 5,
        milestone is RestoredEvidence ==> o.contract@ == fingerprint,
        milestone is RemoteReservoir ==> !o.remote_pair,
        milestone is RemoteChallenger ==> o.remote_ready == 1,
{
}

/// Each pixel stands in its row and each row in its picture, four bytes for each pixel.
pub proof fn pixels_stand_in_their_rows(seed: u8, width: u32, height: u32, y: int, n: int, x: int, k: int)
    requires
        0 <= x < n,
        0 <= k < 4,
    ensures
        acceptance::row_of(seed, width, height, y, n).len() == 4 * n,
        acceptance::row_of(seed, width, height, y, n)[4 * x + k] == acceptance::pixel_of(
            seed,
            width,
            height,
            x,
            y,
        )[k],
        acceptance::pixel_of(seed, width, height, x, y).len() == 4,
        acceptance::pixel_of(seed, width, height, x, y)[3] == 255,
    decreases n,
{
    acceptance::rows_are_full(seed, width, height, y, n);
    acceptance::rows_are_full(seed, width, height, y, n - 1);
    if x < n - 1 {
        pixels_stand_in_their_rows(seed, width, height, y, n - 1, x, k);
    }
}

/// The rows of a picture follow each other.
pub proof fn rows_follow_each_other(seed: u8, width: u32, height: u32, n: int, y: int, i: int)
    requires
        0 <= y < n,
        0 <= i < 4 * width,
    ensures
        acceptance::rows_of(seed, width, height, n).len() == 4 * width * n,
        acceptance::rows_of(seed, width, height, n)[4 * width * y + i] == acceptance::row_of(
            seed,
            width,
            height,
            y,
            width as int,
        )[i],
    decreases n,
{
    lemma_rows_are_full(seed, width, height, n);
    lemma_rows_are_full(seed, width, height, n - 1);
    acceptance::rows_are_full(seed, width, height, n - 1, width as int);
    acceptance::rows_are_full(seed, width, height, y, width as int);
    if y < n - 1 {
        rows_follow_each_other(seed, width, height, n - 1, y, i);
        assert(4 * width * y + i < 4 * width * (n - 1)) by (nonlinear_arith)
            requires
                0 <= y < n - 1,
                0 <= i < 4 * width,
        ;
        assert(4 * width * y + i >= 0) by (nonlinear_arith)
            requires
                0 <= y,
                0 <= i,
        ;
    }
}

proof fn lemma_rows_are_full(seed: u8, width: u32, height: u32, n: int)
    requires
        n >= 0,
    ensures
        acceptance::rows_of(seed, width, height, n).len() == 4 * width * n,
    decreases n,
{
    if n > 0 {
        lemma_rows_are_full(seed, width, height, n - 1);
        acceptance::rows_are_full(seed, width, height, n - 1, width as int);
        assert(4 * width * (n - 1) + 4 * width == 4 * width * n) by (nonlinear_arith);
    }
}

/// What is waited for is called by its name.
pub proof fn steps_are_called_by_their_names()
    ensures
        acceptance::label_of(Milestone::EmptyFirstContact) == "empty first contact"@,
        acceptance::label_of(Milestone::FourImageComparison) == "four-image comparison"@,
        acceptance::label_of(Milestone::CommandGuide) == "generated command guide"@,
        acceptance::label_of(Milestone::ClosedGuide) == "closed command guide"@,
        acceptance::label_of(Milestone::Settings) == "application settings"@,
        acceptance::label_of(Milestone::ClosedSettings) == "closed settings"@,
        acceptance::label_of(Milestone::FavoritePersisted) == "favorite to persist"@,
        acceptance::label_of(Milestone::RotatedComparison) == "rotated comparison"@,
        acceptance::label_of(Milestone::RecordedDuel) == "recorded duel"@,
        acceptance::label_of(Milestone::WithdrawnImage) == "withdrawn image"@,
        acceptance::label_of(Milestone::CollectionBrowser) == "collection browser"@,
        acceptance::label_of(Milestone::FullImageViewer) == "full-image viewer"@,
        acceptance::label_of(Milestone::ImageCopied) == "image copied"@,
        acceptance::label_of(Milestone::ClosedViewer) == "closed full-image viewer"@,
        acceptance::label_of(Milestone::RestoredEvidence) == "restored collection and evidence"@,
        acceptance::label_of(Milestone::RemoteReservoir) == "bounded remote reservoir"@,
        acceptance::label_of(Milestone::RemoteChallenger) == "remote challenger"@,
        acceptance::label_of(Milestone::ImageRejection) == "image rejection"@,
        acceptance::label_of(Milestone::CandidateAfterImageRejection)
            == "candidate after image rejection"@,
        acceptance::label_of(Milestone::ChallengerAfterImageRejection)
            == "challenger after image rejection"@,
        acceptance::label_of(Milestone::StreamRejection) == "stream rejection"@,
        acceptance::label_of(Milestone::CandidateAfterStreamRejection)
            == "candidate after stream rejection"@,
        acceptance::label_of(Milestone::ChallengerAfterStreamRejection)
            == "challenger after stream rejection"@,
        acceptance::label_of(Milestone::BackgroundAdmission) == "background archive admission"@,
        acceptance::label_of(Milestone::PromotedChallenger) == "promoted remote challenger"@,
{
}

/// The step at `k` is followed by the one that it leads to.
pub open spec fn leads_to(story: Seq<StoryStep>, k: int, step: StoryStep, next: StoryStep) -> bool {
    0 <= k < story.len() - 1 && story[k] == step && story[k + 1] == next
}

/// In the first sitting each thing that is done is followed by waiting for what it leads to, and the
/// product is started first and ended last.
pub proof fn deeds_of_the_first_sitting_are_waited_for()
    ensures
        ({
            let story = acceptance::first_session_story();
            &&& leads_to(
                story,
                0,
                StoryStep::Launch { with_collection: true },
                StoryStep::WaitLong(Milestone::FourImageComparison),
            )
            &&& leads_to(
                story,
                3,
                StoryStep::Press(StoryKey::Function(1)),
                StoryStep::Wait(Milestone::CommandGuide),
            )
            &&& leads_to(
                story,
                5,
                StoryStep::Press(StoryKey::Escape),
                StoryStep::Wait(Milestone::ClosedGuide),
            )
            &&& leads_to(
                story,
                7,
                StoryStep::Press(StoryKey::Function(2)),
                StoryStep::Wait(Milestone::Settings),
            )
            &&& leads_to(
                story,
                13,
                StoryStep::Press(StoryKey::Escape),
                StoryStep::Wait(Milestone::ClosedSettings),
            )
            &&& leads_to(
                story,
                15,
                StoryStep::Click(StoryTarget::Favorite(Side::Left)),
                StoryStep::Wait(Milestone::FavoritePersisted),
            )
            &&& leads_to(
                story,
                17,
                StoryStep::Click(StoryTarget::Rotate(Side::Left)),
                StoryStep::WaitLong(Milestone::RotatedComparison),
            )
            &&& leads_to(
                story,
                19,
                StoryStep::Click(StoryTarget::Choice(Side::Left)),
                StoryStep::WaitLong(Milestone::RecordedDuel),
            )
            &&& leads_to(
                story,
                21,
                StoryStep::Click(StoryTarget::Hide(Side::Right)),
                StoryStep::WaitLong(Milestone::WithdrawnImage),
            )
            &&& leads_to(
                story,
                23,
                StoryStep::Click(StoryTarget::BrowseMode),
                StoryStep::Wait(Milestone::CollectionBrowser),
            )
            &&& leads_to(
                story,
                31,
                StoryStep::Click(StoryTarget::BrowseTile),
                StoryStep::WaitLong(Milestone::FullImageViewer),
            )
            &&& leads_to(
                story,
                38,
                StoryStep::Press(StoryKey::Character('c')),
                StoryStep::Wait(Milestone::ImageCopied),
            )
            &&& leads_to(
                story,
                40,
                StoryStep::Click(StoryTarget::ViewerClose),
                StoryStep::Wait(Milestone::ClosedViewer),
            )
            &&& story.last() == StoryStep::Terminate
        }),
{
}

/// In the sitting with outside images each thing that is done is followed by waiting for what it leads
/// to; what was taken in is looked for after the product was started anew.
pub proof fn deeds_with_outside_images_are_waited_for()
    ensures
        ({
            let story = acceptance::remote_session_story();
            let n = story.len();
            &&& leads_to(
                story,
                0,
                StoryStep::Launch { with_collection: false },
                StoryStep::WaitLong(Milestone::RemoteReservoir),
            )
            &&& leads_to(
                story,
                2,
                StoryStep::Click(StoryTarget::Choice(Side::Left)),
                StoryStep::WaitLong(Milestone::RemoteChallenger),
            )
            &&& leads_to(
                story,
                5,
                StoryStep::Press(StoryKey::Character('x')),
                StoryStep::Wait(Milestone::ImageRejection),
            )
            &&& leads_to(
                story,
                10,
                StoryStep::Press(StoryKey::AltCharacter('j')),
                StoryStep::Wait(Milestone::StreamRejection),
            )
            &&& leads_to(
                story,
                17,
                StoryStep::Click(StoryTarget::Choice(Side::Right)),
                StoryStep::Wait(Milestone::BackgroundAdmission),
            )
            &&& leads_to(
                story,
                n - 4,
                StoryStep::Launch { with_collection: false },
                StoryStep::WaitLong(Milestone::PromotedChallenger),
            )
            &&& leads_to(story, n - 2, StoryStep::ExpectImportedJxl, StoryStep::Terminate)
        }),
{
}

/// After an image or a stream was turned down, the next candidate is held ready and then challenges, as
/// the first one did.
pub proof fn candidates_come_again(o: Observation)
    ensures
        acceptance::is_reached(Milestone::CandidateAfterImageRejection, o) == acceptance::is_reached(
            Milestone::RemoteReservoir,
            o,
        ),
        acceptance::is_reached(Milestone::CandidateAfterStreamRejection, o) == acceptance::is_reached(
            Milestone::RemoteReservoir,
            o,
        ),
        acceptance::is_reached(Milestone::ChallengerAfterImageRejection, o) == acceptance::is_reached(
            Milestone::RemoteChallenger,
            o,
        ),
        acceptance::is_reached(Milestone::ChallengerAfterStreamRejection, o) == acceptance::is_reached(
            Milestone::RemoteChallenger,
            o,
        ),
{
}

/// The product begins without a collection and without a pair. An image was turned where one of the pair
/// stands a quarter turn off; the collection is shown where the product is idle in that mode; an image
/// was copied where that is said.
pub proof fn what_is_done_is_seen(o: Observation)
    ensures
        acceptance::is_reached(Milestone::EmptyFirstContact, o) <==> !o.busy && o.collection is None
            && !o.pair_ready,
        acceptance::is_reached(Milestone::RotatedComparison, o) <==> !o.busy && o.pair_ready
            && match o.pair_rotations {
            None => false,
            Some((left, right)) => left == 1 || right == 1,
        },
        acceptance::is_reached(Milestone::CollectionBrowser, o) <==> !o.busy && o.mode@ == "browse"@,
        acceptance::is_reached(Milestone::ImageCopied, o) <==> o.status@ == "IMAGE COPIED"@,
{
}

/// Bytes are counted up to the largest one.
pub proof fn bytes_stop_at_the_largest(n: int)
    requires
        0 <= n,
    ensures
        n <= 255 ==> acceptance::as_byte(n) == n,
        n > 255 ==> acceptance::as_byte(n) == 255,
{
}

/// A test picture glows by the distance from its middle: pixels that are equally far from it, to either
/// side and up or down, have the same red.
pub proof fn pictures_glow_from_the_middle(
    seed: u8,
    width: u32,
    height: u32,
    x: int,
    y: int,
    dx: int,
    dy: int,
)
    requires
        0 <= dx,
        0 <= dy,
        x == width / 2 + dx || x == width / 2 - dx,
        y == height / 2 + dy || y == height / 2 - dy,
    ensures
        acceptance::pixel_of(seed, width, height, x, y)[0] == acceptance::as_byte(
            acceptance::as_byte(36 + acceptance::as_byte(seed * 41)) + (((dx + dy) / 7) % 180) / 3,
        ),
        acceptance::pixel_of(seed, width, height, x, y)[1] == acceptance::as_byte(
            24 + acceptance::as_byte(((x / 48 + y / 52 + seed) % 4) * 34),
        ),
        acceptance::pixel_of(seed, width, height, x, y)[2] == acceptance::as_byte(
            18 + acceptance::as_byte((3 - (x / 48 + y / 52 + seed) % 4) * 29),
        ),
{
}

} // verus!
