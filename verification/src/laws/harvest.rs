//! How sources are gone through.
use crate::harvest;
use crate::harvest::{HarvestStream, ScanFacts, StreamCounts, StreamOutcome, WarmNeeds, WarmStep};
use crate::ready_frontier::{ReadyTargetProfile, SourceReadyFrontier};
use vstd::prelude::*;

verus! {

/// The images of neighbouring ranges of streams add up, and a stream alone has its own.
pub proof fn images_of_streams_add_up(items: Seq<usize>, from: int, middle: int, to: int)
    requires
        from <= middle <= to,
    ensures
        harvest::items_between(items, from, to) == harvest::items_between(items, from, middle)
            + harvest::items_between(items, middle, to),
        harvest::items_between(items, from, from + 1) == items[from],
        harvest::items_between(items, from, from) == 0,
    decreases to - middle,
{
    reveal_with_fuel(harvest::items_between, 2);
    if middle < to {
        images_of_streams_add_up(items, from, middle, to - 1);
    }
}

/// A portion holds at most eight streams and, unless it is a single stream, at most 512 images; and it
/// ends only where there are no more streams, or where the next would be the ninth or have too many
/// images.
pub proof fn portions_are_full_but_not_too_large(items: Seq<usize>, start: int, end: int)
    requires
        harvest::is_chunk(items, start, end),
    ensures
        0 <= start < end <= items.len(),
        end - start <= 8,
        end - start > 1 ==> harvest::items_between(items, start, end) <= 512,
        end < items.len() && end - start < 8 ==> harvest::items_between(items, start, end + 1) > 512,
{
}

/// The portions begin with the first stream, end with the last, and follow each other.
pub proof fn portions_follow_each_other(plan: Seq<(usize, usize)>, items: Seq<usize>, c: int)
    requires
        harvest::is_chunk_plan(plan, items),
        0 <= c < plan.len(),
    ensures
        harvest::is_chunk(items, plan[c].0 as int, plan[c].1 as int),
        c == 0 ==> plan[c].0 == 0,
        c == plan.len() - 1 ==> plan[c].1 == items.len(),
        c < plan.len() - 1 ==> plan[c + 1].0 == plan[c].1,
{
}

/// All images are those of all streams, stream by stream.
pub proof fn all_images_of_all_streams(streams: Seq<HarvestStream>, more: HarvestStream, post: i64)
    ensures
        harvest::all_posts(Seq::empty()) == Seq::<i64>::empty(),
        harvest::all_posts(streams.push(more)) == harvest::all_posts(streams) + more.post_nos@,
        harvest::all_posts(streams).contains(post) <==> exists|i: int|
            0 <= i < streams.len() && (#[trigger] streams[i]).post_nos@.contains(post),
    decreases streams.len(),
{
    assert(streams.push(more).drop_last() =~= streams);
    if streams.len() > 0 {
        let before = streams.drop_last();
        all_images_of_all_streams(before, streams.last(), post);
        assert(before.push(streams.last()) =~= streams);
        let (x, y) = (harvest::all_posts(before), streams.last().post_nos@);
        let all = harvest::all_posts(streams);
        if all.contains(post) {
            let k = choose|k: int| 0 <= k < all.len() && all[k] == post;
            if k < x.len() {
                assert(x[k] == post);
                let i = choose|i: int|
                    0 <= i < before.len() && (#[trigger] before[i]).post_nos@.contains(post);
                assert(streams[i].post_nos@.contains(post));
            } else {
                assert(y[k - x.len()] == post);
                assert(streams[streams.len() - 1].post_nos@.contains(post));
            }
        }
        if exists|i: int| 0 <= i < streams.len() && (#[trigger] streams[i]).post_nos@.contains(post) {
            let i = choose|i: int|
                0 <= i < streams.len() && (#[trigger] streams[i]).post_nos@.contains(post);
            if i < before.len() {
                assert(before[i].post_nos@.contains(post));
                let k = choose|k: int| 0 <= k < x.len() && x[k] == post;
                assert(all[k] == post);
            } else {
                let k = choose|k: int| 0 <= k < y.len() && y[k] == post;
                assert(all[x.len() + k] == post);
            }
        }
    }
}

/// A thread is hungry where it has fewer ready images than are aimed at, and fewer than it has.
pub proof fn threads_hunger_for_what_they_have(counts: StreamCounts, target: usize)
    ensures
        harvest::hungry(counts, target) <==> counts.ready_items < if target < counts.live_items {
            target
        } else {
            counts.live_items
        },
{
}

/// The place of a step among the others.
pub open spec fn step_place(step: WarmStep) -> int {
    match step {
        WarmStep::SavePath => 0,
        WarmStep::ReadBytes => 1,
        WarmStep::Identity => 2,
        WarmStep::QualityFeatures => 3,
        WarmStep::Embedding => 4,
        WarmStep::ClipEmbedding => 5,
    }
}

/// The file's place is noted unless the identity brings it; the rest is done only where something has to
/// be computed from the image: what is lacking, and the bytes are read where the identity or features
/// ask for them. Each step is taken once, in a fixed order.
pub proof fn images_get_what_they_lack(needs: WarmNeeds)
    ensures
        ({
            let steps = harvest::warm_steps_of(needs);
            &&& steps.contains(WarmStep::SavePath) <==> needs.materialization && !needs.identity
            &&& steps.contains(WarmStep::ReadBytes) <==> needs.inline_work && (needs.identity
                || needs.quality_features)
            &&& steps.contains(WarmStep::Identity) <==> needs.inline_work && needs.identity
            &&& steps.contains(WarmStep::QualityFeatures) <==> needs.inline_work && needs.quality_features
            &&& steps.contains(WarmStep::Embedding) <==> needs.inline_work && needs.embedding
            &&& steps.contains(WarmStep::ClipEmbedding) <==> needs.inline_work && needs.clip_embedding
            &&& forall|i: int, j: int|
                0 <= i < j < steps.len() ==> step_place(#[trigger] steps[i]) < step_place(
                    #[trigger] steps[j],
                )
        }),
{
    let a = harvest::step_if(needs.materialization && !needs.identity, WarmStep::SavePath);
    let b = harvest::step_if(
        needs.inline_work && (needs.identity || needs.quality_features),
        WarmStep::ReadBytes,
    );
    let c = harvest::step_if(needs.inline_work && needs.identity, WarmStep::Identity);
    let d = harvest::step_if(needs.inline_work && needs.quality_features, WarmStep::QualityFeatures);
    let e = harvest::step_if(needs.inline_work && needs.embedding, WarmStep::Embedding);
    let f = harvest::step_if(needs.inline_work && needs.clip_embedding, WarmStep::ClipEmbedding);
    lemma_next_step(Seq::empty(), needs.materialization && !needs.identity, WarmStep::SavePath);
    assert(Seq::<WarmStep>::empty() + a =~= a);
    lemma_next_step(
        a,
        needs.inline_work && (needs.identity || needs.quality_features),
        WarmStep::ReadBytes,
    );
    lemma_next_step(a + b, needs.inline_work && needs.identity, WarmStep::Identity);
    lemma_next_step(a + b + c, needs.inline_work && needs.quality_features, WarmStep::QualityFeatures);
    lemma_next_step(a + b + c + d, needs.inline_work && needs.embedding, WarmStep::Embedding);
    lemma_next_step(a + b + c + d + e, needs.inline_work && needs.clip_embedding, WarmStep::ClipEmbedding);
    assert(harvest::warm_steps_of(needs) == a + b + c + d + e + f);
}

/// All steps stand before the given place, in order.
spec fn steps_below(steps: Seq<WarmStep>, place: int) -> bool {
    &&& forall|i: int| 0 <= i < steps.len() ==> step_place(#[trigger] steps[i]) < place
    &&& forall|i: int, j: int|
        0 <= i < j < steps.len() ==> step_place(#[trigger] steps[i]) < step_place(#[trigger] steps[j])
}

proof fn lemma_next_step(steps: Seq<WarmStep>, wanted: bool, step: WarmStep)
    requires
        steps_below(steps, step_place(step)),
    ensures
        steps_below(steps + harvest::step_if(wanted, step), step_place(step) + 1),
        forall|other: WarmStep| #[trigger]
            (steps + harvest::step_if(wanted, step)).contains(other) <==> steps.contains(other) || (wanted
                && other == step),
{
    let all = steps + harvest::step_if(wanted, step);
    if wanted {
        assert(all =~= steps.push(step));
        assert forall|other: WarmStep| #[trigger] all.contains(other) implies steps.contains(other) || other
            == step by {
            let i = choose|i: int| 0 <= i < all.len() && all[i] == other;
            if i < steps.len() {
                assert(steps[i] == other);
            }
        }
        assert forall|other: WarmStep| steps.contains(other) || other == step implies #[trigger] all.contains(
            other,
        ) by {
            if steps.contains(other) {
                let i = choose|i: int| 0 <= i < steps.len() && steps[i] == other;
                assert(all[i] == other);
            } else {
                assert(all[steps.len() as int] == step);
            }
        }
    } else {
        assert(all =~= steps);
    }
}

/// An image is fetched where it is ready already, where its thread is locked and lacks images, or where
/// its source or its thread has too few; and only there.
pub proof fn images_are_fetched_while_there_are_too_few(
    frontier: SourceReadyFrontier,
    stream_id: i64,
    already_ready: bool,
    locked_target: Option<usize>,
)
    ensures
        !harvest::wanted_from(frontier, stream_id, already_ready, locked_target) <==> {
            &&& !already_ready
            &&& frontier.total_ready >= frontier.target_total
            &&& frontier.ready_of(stream_id) >= frontier.target_per_stream
            &&& locked_target is Some ==> frontier.ready_of(stream_id) >= locked_target->0
        },
{
}

/// Moving on leads to an image that is to be looked at and is not before the place moved on from, or,
/// where there is none from there on, behind all streams written so far. No image that is to be looked
/// at from there on stands before it.
pub proof fn harvests_go_on_to_the_next_image(
    sizes: Seq<usize>,
    outcomes: Seq<StreamOutcome>,
    from: (int, int),
    other: (int, int),
)
    requires
        0 <= from.0 <= outcomes.len(),
        0 <= from.1,
    ensures
        ({
            let next = harvest::open_from(sizes, outcomes, from.0, from.1);
            &&& next == (outcomes.len() as int, 0int) || {
                &&& from.0 <= next.0 < outcomes.len()
                &&& !outcomes[next.0].blocked
                &&& 0 <= next.1 < sizes[next.0]
                &&& next.0 == from.0 ==> next.1 >= from.1
            }
            &&& 0 <= other.0 < outcomes.len() && !outcomes[other.0].blocked && 0 <= other.1
                < sizes[other.0] && (other.0 > from.0 || (other.0 == from.0 && other.1 >= from.1))
                ==> next.0 < other.0 || (next.0 == other.0 && next.1 <= other.1)
        }),
    decreases outcomes.len() - from.0,
{
    if from.0 < outcomes.len() && !(!outcomes[from.0].blocked && from.1 < sizes[from.0]) {
        harvests_go_on_to_the_next_image(sizes, outcomes, (from.0 + 1, 0), other);
    }
}

/// Each stream is paired with what came back for it, and one for which nothing came back is passed over.
pub proof fn streams_are_paired_with_their_outcomes(outcomes: Seq<StreamOutcome>, n: int, k: int)
    requires
        0 <= k < n,
    ensures
        harvest::paired_outcomes(outcomes, n).len() == n,
        k < outcomes.len() ==> harvest::paired_outcomes(outcomes, n)[k] == outcomes[k],
        k >= outcomes.len() ==> harvest::paired_outcomes(outcomes, n)[k].blocked,
{
}

/// A source is scanned where it is a local directory, where a locked thread of it is hungry, where it has
/// no streams, where it was in use of late, where it has too few ready images though some, or none and
/// enough time has passed.
pub proof fn sources_rest_where_nothing_is_needed(
    local_directory: bool,
    profile: ReadyTargetProfile,
    facts: ScanFacts,
)
    requires
        profile.per_stream > 0,
    ensures
        !harvest::scan_rests(local_directory, profile, facts) <==> local_directory || facts.lock_hungry
            || facts.active_streams == 0 || facts.recently_selected || (0 < facts.total_ready
            < profile.per_stream) || (facts.total_ready == 0 && facts.backoff_over),
{
}

} // verus!
