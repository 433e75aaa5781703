//! How what a source offers is written down and made ready: in which portions, which images are
//! fetched, and when a source may rest.
use crate::config::{SourceConfig, UpstreamSource};
use crate::model::SessionSubsourceLock;
use crate::pairing;
use crate::ready_frontier;
use crate::ready_frontier::{ReadyTargetProfile, SourceReadyFrontier};
use crate::text;
use vstd::prelude::*;

verus! {

/// How many streams are written at once.
pub const EXTERNAL_STREAM_WRITE_STREAM_CAP: usize = 8;

/// How many images are written at once, unless a single stream has more.
pub const EXTERNAL_STREAM_WRITE_ITEM_BUDGET: usize = 512;

/// How many images the streams from `from` up to `to` have.
pub open spec fn items_between(items: Seq<usize>, from: int, to: int) -> int
    decreases to - from,
{
    if from >= to {
        0
    } else {
        items_between(items, from, to - 1) + items[to - 1]
    }
}

/// The streams from `start` up to `end` are one portion: as many as fit, and at least one.
pub open spec fn is_chunk(items: Seq<usize>, start: int, end: int) -> bool {
    &&& 0 <= start < end <= items.len()
    &&& end - start <= EXTERNAL_STREAM_WRITE_STREAM_CAP
    &&& end == start + 1 || items_between(items, start, end) <= EXTERNAL_STREAM_WRITE_ITEM_BUDGET
    &&& end == items.len() || end - start == EXTERNAL_STREAM_WRITE_STREAM_CAP || items_between(
        items,
        start,
        end + 1,
    ) > EXTERNAL_STREAM_WRITE_ITEM_BUDGET
}

/// The end of the portion that starts at `start`. `items` says how many images each stream has.
pub fn chunk_end(items: &Vec<usize>, start: usize) -> (end: usize)
    requires
        start < items@.len(),
    ensures
        is_chunk(items@, start as int, end as int),
{
    assert(items.len() <= usize::MAX);
    let mut end: usize = start + 1;
    let mut held: usize = items[start];
    proof {
        reveal_with_fuel(items_between, 2);
    }
    while end < items.len() && end - start < EXTERNAL_STREAM_WRITE_STREAM_CAP && held
        <= EXTERNAL_STREAM_WRITE_ITEM_BUDGET && items[end] <= EXTERNAL_STREAM_WRITE_ITEM_BUDGET - held
        invariant
            start < end <= items.len(),
            end - start <= EXTERNAL_STREAM_WRITE_STREAM_CAP,
            held == items_between(items@, start as int, end as int),
            end == start + 1 || held <= EXTERNAL_STREAM_WRITE_ITEM_BUDGET,
        decreases items.len() - end,
    {
        held = held + items[end];
        end = end + 1;
    }
    end
}

/// The portions follow each other without gaps, from the first stream to the last.
pub open spec fn is_chunk_plan(plan: Seq<(usize, usize)>, items: Seq<usize>) -> bool {
    &&& forall|c: int| 0 <= c < plan.len() ==> is_chunk(items, (#[trigger] plan[c]).0 as int, plan[c].1 as int)
    &&& forall|c: int| #![trigger plan[c]] 0 <= c < plan.len() - 1 ==> plan[c].1 == plan[c + 1].0
    &&& plan.len() == 0 <==> items.len() == 0
    &&& plan.len() > 0 ==> plan[0].0 == 0 && plan.last().1 == items.len()
}

/// The portions in which the streams of a source are written.
pub fn chunk_plan(items: &Vec<usize>) -> (plan: Vec<(usize, usize)>)
    ensures
        is_chunk_plan(plan@, items@),
{
    let mut plan: Vec<(usize, usize)> = Vec::new();
    let mut start: usize = 0;
    while start < items.len()
        invariant
            start <= items.len(),
            forall|c: int|
                0 <= c < plan.len() ==> is_chunk(
                    items@,
                    (#[trigger] plan@[c]).0 as int,
                    plan@[c].1 as int,
                ),
            forall|c: int|
                #![trigger plan@[c]]
                0 <= c < plan.len() - 1 ==> plan@[c].1 == plan@[c + 1].0,
            plan.len() == 0 <==> start == 0,
            plan.len() > 0 ==> plan@[0].0 == 0 && plan@.last().1 == start,
        decreases items.len() - start,
    {
        let end = chunk_end(items, start);
        plan.push((start, end));
        start = end;
    }
    plan
}

proof fn lemma_chunks_ascend(plan: Seq<(usize, usize)>, items: Seq<usize>, a: int, b: int)
    requires
        is_chunk_plan(plan, items),
        0 <= a < b < plan.len(),
    ensures
        plan[a].1 <= plan[b].0,
    decreases b - a,
{
    if b == a + 1 {
        assert(plan[a].1 == plan[a + 1].0);
    } else {
        lemma_chunks_ascend(plan, items, a, b - 1);
        assert(is_chunk(items, plan[b - 1].0 as int, plan[b - 1].1 as int));
        assert(plan[b - 1].1 == plan[b - 1 + 1].0);
    }
}

proof fn lemma_chunk_found(plan: Seq<(usize, usize)>, items: Seq<usize>, stream: int, upto: int)
    requires
        is_chunk_plan(plan, items),
        0 <= upto < plan.len(),
        0 <= stream < plan[upto].1,
    ensures
        exists|c: int| 0 <= c <= upto && (#[trigger] plan[c]).0 <= stream < plan[c].1,
    decreases upto,
{
    if plan[upto].0 <= stream {
    } else {
        assert(upto > 0);
        assert(plan[upto - 1].1 == plan[upto - 1 + 1].0);
        lemma_chunk_found(plan, items, stream, upto - 1);
    }
}

/// Every stream is written, and none twice.
pub proof fn every_stream_is_written_once(plan: Seq<(usize, usize)>, items: Seq<usize>, stream: int)
    requires
        is_chunk_plan(plan, items),
        0 <= stream < items.len(),
    ensures
        exists|c: int| 0 <= c < plan.len() && (#[trigger] plan[c]).0 <= stream < plan[c].1,
        forall|a: int, b: int|
            0 <= a < plan.len() && 0 <= b < plan.len() && (#[trigger] plan[a]).0 <= stream < plan[a].1
                && (#[trigger] plan[b]).0 <= stream < plan[b].1 ==> a == b,
{
    lemma_chunk_found(plan, items, stream, plan.len() - 1);
    assert forall|a: int, b: int|
        0 <= a < plan.len() && 0 <= b < plan.len() && (#[trigger] plan[a]).0 <= stream < plan[a].1 && (
        #[trigger] plan[b]).0 <= stream < plan[b].1 implies a == b by {
        if a < b {
            lemma_chunks_ascend(plan, items, a, b);
        } else if b < a {
            lemma_chunks_ascend(plan, items, b, a);
        }
    }
}

proof fn lemma_items_monotone(items: Seq<usize>, from: int, a: int, b: int)
    requires
        0 <= from <= a <= b <= items.len(),
    ensures
        0 <= items_between(items, from, a) <= items_between(items, from, b),
    decreases b - from,
{
    if a < b {
        lemma_items_monotone(items, from, a, b - 1);
    } else if from < a {
        lemma_items_monotone(items, from, from, a - 1);
    }
}

/// Where a portion starts decides where it ends.
pub proof fn portions_are_determined(items: Seq<usize>, start: int, a: int, b: int)
    requires
        is_chunk(items, start, a),
        is_chunk(items, start, b),
    ensures
        a == b,
{
    if a < b {
        lemma_items_monotone(items, start, a + 1, b);
    } else if b < a {
        lemma_items_monotone(items, start, b + 1, a);
    }
}

/// A stream that a source offers, with the numbers of its images.
#[derive(Debug)]
pub struct HarvestStream {
    pub thread_no: i64,
    pub post_nos: Vec<i64>,
}

/// The numbers of all images of all streams.
pub open spec fn all_posts(streams: Seq<HarvestStream>) -> Seq<i64>
    decreases streams.len(),
{
    if streams.len() == 0 {
        Seq::empty()
    } else {
        all_posts(streams.drop_last()) + streams.last().post_nos@
    }
}

/// The numbers of all images of all streams.
pub fn live_post_nos(streams: &Vec<HarvestStream>) -> (r: Vec<i64>)
    ensures
        r@ == all_posts(streams@),
{
    let mut r: Vec<i64> = Vec::new();
    let mut i: usize = 0;
    while i < streams.len()
        invariant
            i <= streams.len(),
            r@ == all_posts(streams@.take(i as int)),
        decreases streams.len() - i,
    {
        proof {
            assert(streams@.take(i + 1).drop_last() =~= streams@.take(i as int));
            assert(streams@.take(i + 1).last() == streams@[i as int]);
        }
        let ghost before = r@;
        let posts = &streams[i].post_nos;
        let mut k: usize = 0;
        while k < posts.len()
            invariant
                k <= posts.len(),
                r@ == before + posts@.take(k as int),
            decreases posts.len() - k,
        {
            r.push(posts[k]);
            assert(posts@.take(k + 1) =~= posts@.take(k as int).push(posts@[k as int]));
            k += 1;
        }
        assert(posts@.take(k as int) =~= posts@);
        i += 1;
    }
    assert(streams@.take(i as int) =~= streams@);
    r
}

/// The numbers of all streams.
pub fn live_thread_nos(streams: &Vec<HarvestStream>) -> (r: Vec<i64>)
    ensures
        r@ == streams@.map_values(|stream: HarvestStream| stream.thread_no),
{
    let mut r: Vec<i64> = Vec::new();
    let mut i: usize = 0;
    while i < streams.len()
        invariant
            i <= streams.len(),
            r@ == streams@.take(i as int).map_values(|stream: HarvestStream| stream.thread_no),
        decreases streams.len() - i,
    {
        r.push(streams[i].thread_no);
        assert(streams@.take(i + 1).map_values(|stream: HarvestStream| stream.thread_no)
            =~= streams@.take(i as int).map_values(
            |stream: HarvestStream| stream.thread_no,
        ).push(streams@[i as int].thread_no));
        i += 1;
    }
    assert(streams@.take(i as int) =~= streams@);
    r
}

/// What is said of an image that was written but has no number.
pub fn missing_mapping_message(source_key: &str, post_no: i64) -> (r: String)
    ensures
        r@ == "missing upserted external item mapping source="@ + source_key@ + " post_no="@
            + text::signed_decimal(post_no as int),
{
    let mut r = "missing upserted external item mapping source=".to_owned();
    r.append(source_key);
    r.append(" post_no=");
    text::push_signed_decimal(&mut r, post_no);
    r
}

/// How many images of a locked thread are to be ready: all it has, up to `ready_target`.
pub fn locked_stream_ready_target(live_items: usize, ready_target: usize) -> (r: usize)
    ensures
        r == if live_items < ready_target {
            live_items
        } else {
            ready_target
        },
{
    if live_items < ready_target {
        live_items
    } else {
        ready_target
    }
}

/// How many images a thread has, and how many of them are ready.
#[derive(Debug, Clone, Copy, PartialEq, Eq, Structural)]
pub struct StreamCounts {
    pub live_items: usize,
    pub ready_items: usize,
}

/// A thread has fewer ready images than a locked one is to have.
pub open spec fn hungry(counts: StreamCounts, ready_target: usize) -> bool {
    counts.ready_items < ready_target && counts.ready_items < counts.live_items
}

/// Whether the images of a locked thread are to be refreshed.
pub fn stream_is_hungry(counts: StreamCounts, ready_target: usize) -> (r: bool)
    ensures
        r == hungry(counts, ready_target),
{
    counts.ready_items < locked_stream_ready_target(counts.live_items, ready_target)
}

/// Whether a source has to be scanned for the thread that the session is locked to.
pub fn locked_source_needs_refresh(
    lock: Option<&SessionSubsourceLock>,
    source_key: &str,
    counts: Option<StreamCounts>,
    ready_target: usize,
) -> (r: bool)
    ensures
        r == match lock {
            None => false,
            Some(lock) => lock.source_key@ == source_key@ && match counts {
                None => true,
                Some(counts) => hungry(counts, ready_target),
            },
        },
{
    match lock {
        None => false,
        Some(lock) => text::same_text(lock.source_key.as_str(), source_key) && match counts {
            None => true,
            Some(counts) => stream_is_hungry(counts, ready_target),
        },
    }
}

/// Whether the thread of an image that is about to be shown has to be refreshed: it is the locked one
/// and has fewer ready images than such a one is to have.
pub fn shown_thread_needs_refresh(
    lock: Option<&SessionSubsourceLock>,
    source_key: &str,
    stream_id: i64,
    counts: Option<StreamCounts>,
    ready_target: usize,
) -> (r: bool)
    ensures
        r == match (lock, counts) {
            (Some(lock), Some(counts)) => lock.source_key@ == source_key@ && lock.stream_id == stream_id
                && hungry(counts, ready_target),
            _ => false,
        },
{
    match (lock, counts) {
        (Some(lock), Some(counts)) => text::same_text(lock.source_key.as_str(), source_key)
            && lock.stream_id == stream_id && stream_is_hungry(counts, ready_target),
        _ => false,
    }
}

/// Whether a lock is worth keeping though nothing of its thread can be shown now: images may still
/// become ready, or the source may be scanned. `scan_interval_seconds` is absent where the source is
/// not configured any more.
pub fn locked_stream_should_hold_lock(
    scan_interval_seconds: Option<u64>,
    counts: Option<StreamCounts>,
    scan_due: bool,
) -> (r: bool)
    ensures
        r == match (scan_interval_seconds, counts) {
            (None, _) => false,
            (Some(seconds), None) => seconds > 0,
            (Some(seconds), Some(counts)) => counts.ready_items < counts.live_items || (seconds > 0
                && scan_due),
        },
{
    match scan_interval_seconds {
        None => false,
        Some(seconds) => match counts {
            None => seconds > 0,
            Some(counts) => counts.ready_items < counts.live_items || (seconds > 0 && scan_due),
        },
    }
}

/// Whether a request to refresh a locked thread still applies.
pub fn refresh_still_wanted(active: Option<&SessionSubsourceLock>, asked: &SessionSubsourceLock) -> (r:
    bool)
    ensures
        r == match active {
            None => false,
            Some(active) => active@ == asked@,
        },
{
    match active {
        None => false,
        Some(active) => text::same_text(active.source_key.as_str(), asked.source_key.as_str())
            && active.stream_id == asked.stream_id,
    }
}

/// How a locked thread is warmed up from what is already known of it.
#[derive(Debug, Clone, Copy, PartialEq, Eq, Structural)]
pub struct WarmRun {
    pub target: usize,
    pub started_with: usize,
    pub ready: usize,
    pub needs_face_backfill: bool,
}

impl WarmRun {
    /// The run, where there is anything to warm up.
    pub fn begin(counts: Option<StreamCounts>, ready_target: usize) -> (r: Option<Self>)
        ensures
            match r {
                None => match counts {
                    None => true,
                    Some(counts) => !hungry(counts, ready_target),
                },
                Some(run) => counts matches Some(counts) && hungry(counts, ready_target) && run == (
                WarmRun {
                    target: if counts.live_items < ready_target {
                        counts.live_items
                    } else {
                        ready_target
                    },
                    started_with: counts.ready_items,
                    ready: counts.ready_items,
                    needs_face_backfill: false,
                }),
            },
    {
        match counts {
            None => None,
            Some(counts) => {
                let target = locked_stream_ready_target(counts.live_items, ready_target);
                if counts.ready_items >= target {
                    None
                } else {
                    Some(
                        WarmRun {
                            target,
                            started_with: counts.ready_items,
                            ready: counts.ready_items,
                            needs_face_backfill: false,
                        },
                    )
                }
            },
        }
    }

    /// Whether another image is wanted.
    pub fn wants_more(&self) -> (r: bool)
        ensures
            r == (self.ready < self.target),
    {
        self.ready < self.target
    }

    /// Notes what became of an image.
    pub fn note(&mut self, outcome: WarmOutcome)
        requires
            old(self).ready < old(self).target,
        ensures
            *final(self) == (WarmRun {
                ready: if outcome.became_ready {
                    (old(self).ready + 1) as usize
                } else {
                    old(self).ready
                },
                needs_face_backfill: old(self).needs_face_backfill || outcome.needs_face_backfill,
                ..*old(self)
            }),
            final(self).ready <= final(self).target,
    {
        if outcome.became_ready {
            self.ready = self.ready + 1;
        }
        self.needs_face_backfill = self.needs_face_backfill || outcome.needs_face_backfill;
    }

    /// Whether images became ready, so that look-alikes have to be looked for anew.
    pub fn found_any(&self) -> (r: bool)
        ensures
            r == (self.ready > self.started_with),
    {
        self.ready > self.started_with
    }
}

/// What became of an image that was to be made ready.
#[derive(Debug, Clone, Copy, PartialEq, Eq, Structural)]
pub struct WarmOutcome {
    pub became_ready: bool,
    pub needs_face_backfill: bool,
}

/// What an image lacks before it can be shown.
#[derive(Debug, Clone, Copy, PartialEq, Eq, Structural)]
pub struct WarmNeeds {
    pub already_ready: bool,
    /// Something has to be computed from the image itself.
    pub inline_work: bool,
    pub materialization: bool,
    pub identity: bool,
    pub quality_features: bool,
    pub embedding: bool,
    pub clip_embedding: bool,
    pub face_embedding: bool,
}

/// Where the file of an image comes from.
#[derive(Debug, Clone, Copy, PartialEq, Eq, Structural)]
pub enum WarmSource {
    /// Nothing is to be done.
    Nowhere,
    /// The file that the source names.
    Named,
    /// A copy that has to be fetched.
    Fetched,
}

/// Where the file of an image comes from. `named` says whether the source names a file, and whether
/// that file is there.
pub fn warm_source(
    needs: WarmNeeds,
    cached_file_exists: bool,
    named: Option<bool>,
    local_directory: bool,
) -> (r: WarmSource)
    ensures
        r == if needs.already_ready && !needs.inline_work && cached_file_exists {
            WarmSource::Nowhere
        } else {
            match named {
                Some(true) => WarmSource::Named,
                Some(false) => if local_directory {
                    WarmSource::Nowhere
                } else {
                    WarmSource::Fetched
                },
                None => WarmSource::Fetched,
            }
        },
{
    if needs.already_ready && !needs.inline_work && cached_file_exists {
        return WarmSource::Nowhere;
    }
    match named {
        Some(true) => WarmSource::Named,
        Some(false) => {
            if local_directory {
                WarmSource::Nowhere
            } else {
                WarmSource::Fetched
            }
        },
        None => WarmSource::Fetched,
    }
}

/// One step towards an image that can be shown.
#[derive(Debug, Clone, Copy, PartialEq, Eq, Structural)]
pub enum WarmStep {
    SavePath,
    ReadBytes,
    /// Identify the image; one that turns out not to be active needs no further step.
    Identity,
    QualityFeatures,
    Embedding,
    ClipEmbedding,
}

/// One step if it is wanted.
pub open spec fn step_if(wanted: bool, step: WarmStep) -> Seq<WarmStep> {
    if wanted {
        seq![step]
    } else {
        Seq::empty()
    }
}

/// The steps towards an image that can be shown, in order. Only the file's place is noted where
/// nothing has to be computed, and not even that where the identity brings it.
pub open spec fn warm_steps_of(needs: WarmNeeds) -> Seq<WarmStep> {
    step_if(needs.materialization && !needs.identity, WarmStep::SavePath) + step_if(
        needs.inline_work && (needs.identity || needs.quality_features),
        WarmStep::ReadBytes,
    ) + step_if(needs.inline_work && needs.identity, WarmStep::Identity) + step_if(
        needs.inline_work && needs.quality_features,
        WarmStep::QualityFeatures,
    ) + step_if(needs.inline_work && needs.embedding, WarmStep::Embedding) + step_if(
        needs.inline_work && needs.clip_embedding,
        WarmStep::ClipEmbedding,
    )
}

fn push_if(steps: &mut Vec<WarmStep>, wanted: bool, step: WarmStep)
    ensures
        final(steps)@ == old(steps)@ + step_if(wanted, step),
{
    if wanted {
        steps.push(step);
    }
    assert(steps@ =~= old(steps)@ + step_if(wanted, step));
}

/// The steps towards an image that can be shown, in order, once its file is there.
pub fn warm_steps(needs: WarmNeeds, file_exists: bool) -> (r: Vec<WarmStep>)
    ensures
        r@ == if file_exists {
            warm_steps_of(needs)
        } else {
            Seq::empty()
        },
{
    let mut steps: Vec<WarmStep> = Vec::new();
    if file_exists {
        push_if(&mut steps, needs.materialization && !needs.identity, WarmStep::SavePath);
        push_if(
            &mut steps,
            needs.inline_work && (needs.identity || needs.quality_features),
            WarmStep::ReadBytes,
        );
        push_if(&mut steps, needs.inline_work && needs.identity, WarmStep::Identity);
        push_if(&mut steps, needs.inline_work && needs.quality_features, WarmStep::QualityFeatures);
        push_if(&mut steps, needs.inline_work && needs.embedding, WarmStep::Embedding);
        push_if(&mut steps, needs.inline_work && needs.clip_embedding, WarmStep::ClipEmbedding);
        assert(steps@ =~= warm_steps_of(needs));
    }
    steps
}

/// What became of an image: it became ready if it was not before and is now. `went_through` says
/// whether all steps were taken.
pub fn warm_outcome(needs: WarmNeeds, went_through: bool, ready_now: bool) -> (r: WarmOutcome)
    ensures
        r == (WarmOutcome {
            became_ready: went_through && !needs.already_ready && ready_now,
            needs_face_backfill: needs.face_embedding,
        }),
{
    WarmOutcome {
        became_ready: went_through && !needs.already_ready && ready_now,
        needs_face_backfill: needs.face_embedding,
    }
}

/// What a source offers while it is gone through.
pub struct HarvestPass {
    pub frontier: SourceReadyFrontier,
    pub needs_face_backfill: bool,
}

/// An image is fetched: one that is ready anyway, one of a locked thread that is still hungry, or
/// any while the source or its stream has too few.
pub open spec fn wanted_from(
    frontier: SourceReadyFrontier,
    stream_id: i64,
    already_ready: bool,
    locked_target: Option<usize>,
) -> bool {
    ||| already_ready
    ||| match locked_target {
        None => false,
        Some(target) => frontier.ready_of(stream_id) < target,
    }
    ||| frontier.total_ready < frontier.target_total
    ||| frontier.ready_of(stream_id) < frontier.target_per_stream
}

impl HarvestPass {
    /// The pass over a source of which nothing was gone through yet.
    pub fn begin(frontier: SourceReadyFrontier) -> (r: Self)
        ensures
            r.frontier == frontier,
            !r.needs_face_backfill,
    {
        HarvestPass { frontier, needs_face_backfill: false }
    }

    /// Whether an image is fetched. Blocked streams and hidden images are not.
    pub fn wants(
        &self,
        stream_id: i64,
        stream_blocked: bool,
        hidden: bool,
        already_ready: bool,
        locked_target: Option<usize>,
    ) -> (r: bool)
        ensures
            r == (!stream_blocked && !hidden && wanted_from(
                self.frontier,
                stream_id,
                already_ready,
                locked_target,
            )),
    {
        if stream_blocked || hidden {
            return false;
        }
        if already_ready {
            return true;
        }
        let locked_hungry = match locked_target {
            None => false,
            Some(target) => self.frontier.ready_in_stream(stream_id) < target,
        };
        locked_hungry || !self.frontier.source_saturated() || !self.frontier.stream_saturated(stream_id)
    }

    /// Notes what became of an image.
    pub fn note(&mut self, stream_id: i64, outcome: WarmOutcome)
        requires
            outcome.became_ready ==> old(self).frontier.total_ready < usize::MAX && old(
                self,
            ).frontier.ready_of(stream_id) < usize::MAX,
        ensures
            final(self).needs_face_backfill == (old(self).needs_face_backfill
                || outcome.needs_face_backfill),
            !outcome.became_ready ==> final(self).frontier == old(self).frontier,
            outcome.became_ready ==> {
                &&& final(self).frontier.total_ready == old(self).frontier.total_ready + 1
                &&& final(self).frontier.ready_by_stream@ == old(
                    self,
                ).frontier.ready_by_stream@.insert(
                    stream_id,
                    (old(self).frontier.ready_of(stream_id) + 1) as usize,
                )
                &&& final(self).frontier.target_total == old(self).frontier.target_total
                &&& final(self).frontier.target_per_stream == old(self).frontier.target_per_stream
            },
    {
        self.needs_face_backfill = self.needs_face_backfill || outcome.needs_face_backfill;
        if outcome.became_ready {
            self.frontier.note_ready(stream_id);
        }
    }
}

/// What became of a stream that was written.
#[derive(Debug, Clone, Copy, PartialEq, Eq, Structural)]
pub struct StreamOutcome {
    pub stream_id: i64,
    /// The user turned the stream down.
    pub blocked: bool,
}

/// What is done next with what a source offers.
#[derive(Debug, Clone, Copy, PartialEq, Eq, Structural)]
pub enum HarvestAction {
    /// Write down the streams from `from` up to `to`.
    Write { from: usize, to: usize },
    /// Look at an image of a stream.
    Visit { stream: usize, item: usize, stream_id: i64 },
    /// Everything was gone through.
    Finish { face_backfill: bool },
}

/// A source while it is gone through: portion by portion its streams are written, and then each
/// image of each stream that is not blocked is looked at.
pub struct HarvestRun {
    /// How many images each stream has.
    pub sizes: Vec<usize>,
    /// What became of the streams written so far.
    pub outcomes: Vec<StreamOutcome>,
    /// Where the run is: the stream, and the image within it.
    pub stream: usize,
    pub item: usize,
    pub pass: HarvestPass,
}

/// The first image at or behind image `i` of stream `s` that is to be looked at among the streams
/// written so far, or the place behind all of them.
pub open spec fn open_from(sizes: Seq<usize>, outcomes: Seq<StreamOutcome>, s: int, i: int) -> (int, int)
    decreases outcomes.len() - s,
{
    if s >= outcomes.len() {
        (outcomes.len() as int, 0)
    } else if !outcomes[s].blocked && i < sizes[s] {
        (s, i)
    } else {
        open_from(sizes, outcomes, s + 1, 0)
    }
}

/// The image at `i` of stream `s` is to be looked at.
pub open spec fn is_open(sizes: Seq<usize>, outcomes: Seq<StreamOutcome>, s: int, i: int) -> bool {
    0 <= s < outcomes.len() && !outcomes[s].blocked && 0 <= i < sizes[s]
}

/// One image comes before another or is the same.
pub open spec fn not_behind(a: (int, int), b: (int, int)) -> bool {
    a.0 < b.0 || (a.0 == b.0 && a.1 <= b.1)
}

/// What became of `n` streams of which each is paired with what came back for it. A stream for which
/// nothing came back is passed over like a blocked one; what came back beyond them is dropped.
pub open spec fn paired_outcomes(outcomes: Seq<StreamOutcome>, n: int) -> Seq<StreamOutcome> {
    Seq::new(
        n as nat,
        |k: int|
            if k < outcomes.len() {
                outcomes[k]
            } else {
                StreamOutcome { stream_id: 0, blocked: true }
            },
    )
}

impl HarvestRun {
    /// The run stands at an image that is to be looked at, or behind all streams written so far.
    pub open spec fn wf(self) -> bool {
        &&& self.outcomes@.len() <= self.sizes@.len()
        &&& self.stream <= self.outcomes@.len()
        &&& self.stream < self.outcomes@.len() ==> is_open(
            self.sizes@,
            self.outcomes@,
            self.stream as int,
            self.item as int,
        )
        &&& self.stream == self.outcomes@.len() ==> self.item == 0
    }

    /// Where the run is.
    pub open spec fn place(self) -> (int, int) {
        (self.stream as int, self.item as int)
    }

    /// The run over a source of which nothing was written yet.
    pub fn begin(sizes: Vec<usize>, frontier: SourceReadyFrontier) -> (r: Self)
        ensures
            r.wf(),
            r.sizes == sizes,
            r.outcomes@.len() == 0,
            r.stream == 0,
            r.item == 0,
            r.pass.frontier == frontier,
            !r.pass.needs_face_backfill,
    {
        HarvestRun {
            sizes,
            outcomes: Vec::new(),
            stream: 0,
            item: 0,
            pass: HarvestPass::begin(frontier),
        }
    }

    /// What is done next.
    pub fn next_action(&self) -> (r: HarvestAction)
        requires
            self.wf(),
        ensures
            match r {
                HarvestAction::Visit { stream, item, stream_id } => self.stream < self.outcomes@.len()
                    && stream == self.stream && item == self.item && stream_id
                    == self.outcomes@[self.stream as int].stream_id,
                HarvestAction::Write { from, to } => self.stream == self.outcomes@.len() && from
                    == self.stream && is_chunk(self.sizes@, from as int, to as int),
                HarvestAction::Finish { face_backfill } => self.stream == self.sizes@.len()
                    && face_backfill == self.pass.needs_face_backfill,
            },
    {
        if self.stream < self.outcomes.len() {
            return HarvestAction::Visit {
                stream: self.stream,
                item: self.item,
                stream_id: self.outcomes[self.stream].stream_id,
            };
        }
        if self.stream < self.sizes.len() {
            return HarvestAction::Write {
                from: self.stream,
                to: chunk_end(&self.sizes, self.stream),
            };
        }
        HarvestAction::Finish { face_backfill: self.pass.needs_face_backfill }
    }

    /// Moves to the next image that is to be looked at, from the given place on.
    fn move_to_open(&mut self, from_stream: usize, from_item: usize)
        requires
            old(self).outcomes@.len() <= old(self).sizes@.len(),
            from_stream <= old(self).outcomes@.len(),
        ensures
            final(self).wf(),
            final(self).sizes == old(self).sizes,
            final(self).outcomes == old(self).outcomes,
            final(self).pass == old(self).pass,
            final(self).place() == open_from(
                old(self).sizes@,
                old(self).outcomes@,
                from_stream as int,
                from_item as int,
            ),
    {
        let mut s = from_stream;
        let mut i = from_item;
        while s < self.outcomes.len() && (self.outcomes[s].blocked || i >= self.sizes[s])
            invariant
                *self == *old(self),
                s <= self.outcomes@.len(),
                self.outcomes@.len() <= self.sizes@.len(),
                open_from(self.sizes@, self.outcomes@, s as int, i as int) == open_from(
                    self.sizes@,
                    self.outcomes@,
                    from_stream as int,
                    from_item as int,
                ),
            decreases self.outcomes@.len() - s,
        {
            s += 1;
            i = 0;
        }
        self.stream = s;
        self.item = if s < self.outcomes.len() {
            i
        } else {
            0
        };
    }

    /// Notes what became of the streams up to `to`, which were written.
    pub fn note_written(&mut self, to: usize, outcomes: &Vec<StreamOutcome>)
        requires
            old(self).wf(),
            old(self).stream == old(self).outcomes@.len(),
            old(self).stream <= to <= old(self).sizes@.len(),
        ensures
            final(self).wf(),
            final(self).sizes == old(self).sizes,
            final(self).pass == old(self).pass,
            final(self).outcomes@ == old(self).outcomes@ + paired_outcomes(
                outcomes@,
                to - old(self).stream,
            ),
            final(self).place() == open_from(
                final(self).sizes@,
                final(self).outcomes@,
                old(self).stream as int,
                0,
            ),
    {
        let from = self.stream;
        let n: usize = to - from;
        let ghost paired = paired_outcomes(outcomes@, n as int);
        let mut k: usize = 0;
        while k < n
            invariant
                k <= n,
                paired == paired_outcomes(outcomes@, n as int),
                self.sizes == old(self).sizes,
                self.pass == old(self).pass,
                self.stream == from,
                from == old(self).outcomes@.len(),
                self.outcomes@ == old(self).outcomes@ + paired.take(k as int),
            decreases n - k,
        {
            let outcome = if k < outcomes.len() {
                outcomes[k]
            } else {
                StreamOutcome { stream_id: 0, blocked: true }
            };
            self.outcomes.push(outcome);
            assert(paired.take(k + 1) =~= paired.take(k as int).push(outcome));
            k += 1;
        }
        assert(paired.take(k as int) =~= paired);
        self.move_to_open(from, 0);
    }

    /// Moves on from the image that was looked at, and notes what became of it if it was fetched.
    pub fn note_visited(&mut self, outcome: Option<WarmOutcome>)
        requires
            old(self).wf(),
            old(self).stream < old(self).outcomes@.len(),
            outcome matches Some(warmed) && warmed.became_ready ==> old(
                self,
            ).pass.frontier.total_ready < usize::MAX && old(self).pass.frontier.ready_of(
                old(self).outcomes@[old(self).stream as int].stream_id,
            ) < usize::MAX,
        ensures
            final(self).wf(),
            final(self).sizes == old(self).sizes,
            final(self).outcomes == old(self).outcomes,
            final(self).place() == open_from(
                old(self).sizes@,
                old(self).outcomes@,
                old(self).stream as int,
                old(self).item + 1,
            ),
            outcome is None ==> final(self).pass == old(self).pass,
            outcome matches Some(warmed) ==> {
                &&& final(self).pass.needs_face_backfill == (old(self).pass.needs_face_backfill
                    || warmed.needs_face_backfill)
                &&& !warmed.became_ready ==> final(self).pass.frontier == old(self).pass.frontier
                &&& warmed.became_ready ==> {
                    let before = old(self).pass.frontier;
                    let after = final(self).pass.frontier;
                    let stream_id = old(self).outcomes@[old(self).stream as int].stream_id;
                    &&& after.total_ready == before.total_ready + 1
                    &&& after.ready_by_stream@ == before.ready_by_stream@.insert(
                        stream_id,
                        (before.ready_of(stream_id) + 1) as usize,
                    )
                    &&& after.target_total == before.target_total
                    &&& after.target_per_stream == before.target_per_stream
                }
            },
    {
        let stream = self.stream;
        let item = self.item;
        match outcome {
            Some(warmed) => {
                let stream_id = self.outcomes[stream].stream_id;
                self.pass.note(stream_id, warmed);
            },
            None => {},
        }
        self.move_to_open(stream, item + 1);
    }
}

proof fn lemma_open_from(sizes: Seq<usize>, outcomes: Seq<StreamOutcome>, s: int, i: int, t: int, k: int)
    requires
        0 <= s,
        0 <= i,
        is_open(sizes, outcomes, t, k),
        not_behind((s, i), (t, k)),
    ensures
        not_behind(open_from(sizes, outcomes, s, i), (t, k)),
        not_behind((s, i), open_from(sizes, outcomes, s, i)),
        is_open(sizes, outcomes, open_from(sizes, outcomes, s, i).0, open_from(sizes, outcomes, s, i).1),
    decreases outcomes.len() - s,
{
    if !outcomes[s].blocked && i < sizes[s] {
    } else {
        lemma_open_from(sizes, outcomes, s + 1, 0, t, k);
    }
}

/// No image is passed over: moving on from one place, the run comes to an image that is to be looked
/// at, and not behind any other that is to be looked at from there on.
pub proof fn no_image_is_passed_over(
    sizes: Seq<usize>,
    outcomes: Seq<StreamOutcome>,
    from: (int, int),
    other: (int, int),
)
    requires
        from.0 >= 0,
        from.1 >= 0,
        is_open(sizes, outcomes, other.0, other.1),
        not_behind(from, other),
    ensures
        not_behind(open_from(sizes, outcomes, from.0, from.1), other),
        is_open(
            sizes,
            outcomes,
            open_from(sizes, outcomes, from.0, from.1).0,
            open_from(sizes, outcomes, from.0, from.1).1,
        ),
{
    lemma_open_from(sizes, outcomes, from.0, from.1, other.0, other.1);
}

/// No image is looked at twice: the place behind an image leads only to later ones.
pub proof fn harvests_move_forward(sizes: Seq<usize>, outcomes: Seq<StreamOutcome>, s: int, i: int)
    requires
        0 <= s < outcomes.len(),
        0 <= i,
    ensures
        !not_behind(open_from(sizes, outcomes, s, i + 1), (s, i)),
    decreases outcomes.len() - s,
{
    if !outcomes[s].blocked && i + 1 < sizes[s] {
    } else {
        lemma_open_not_before(sizes, outcomes, s + 1, 0);
    }
}

proof fn lemma_open_not_before(sizes: Seq<usize>, outcomes: Seq<StreamOutcome>, s: int, i: int)
    requires
        0 <= s,
    ensures
        open_from(sizes, outcomes, s, i).0 >= s || s > outcomes.len(),
    decreases outcomes.len() - s,
{
    if s < outcomes.len() && (outcomes[s].blocked || i >= sizes[s]) {
        lemma_open_not_before(sizes, outcomes, s + 1, 0);
    }
}

/// How many images of a stream the lock of the session asks for, if it is locked to the stream.
pub fn locked_target(
    lock: Option<&SessionSubsourceLock>,
    source_key: &str,
    stream_id: i64,
    items: usize,
    ready_target: usize,
) -> (r: Option<usize>)
    ensures
        r == match lock {
            None => None,
            Some(lock) => if lock@ == (source_key@, stream_id) {
                Some(
                    if items < ready_target {
                        items
                    } else {
                        ready_target
                    },
                )
            } else {
                None
            },
        },
{
    if pairing::stream_locked(lock, source_key, stream_id) {
        Some(locked_stream_ready_target(items, ready_target))
    } else {
        None
    }
}

/// A source whose streams and whose total are saturated fetches nothing new outside a locked thread.
pub proof fn saturated_sources_fetch_nothing_new(frontier: SourceReadyFrontier, stream_id: i64)
    requires
        frontier.total_ready >= frontier.target_total,
        frontier.ready_of(stream_id) >= frontier.target_per_stream,
    ensures
        !wanted_from(frontier, stream_id, false, None),
        wanted_from(frontier, stream_id, true, None),
{
}

/// A locked thread is filled up to its own target, even where its source has enough.
pub proof fn locked_threads_are_filled_beyond_saturation(
    frontier: SourceReadyFrontier,
    stream_id: i64,
    target: usize,
)
    requires
        frontier.ready_of(stream_id) < target,
    ensures
        wanted_from(frontier, stream_id, false, Some(target)),
{
}

/// What is known of a remote source when it could be scanned.
#[derive(Debug, Clone, Copy, PartialEq, Eq, Structural)]
pub struct ScanFacts {
    pub lock_hungry: bool,
    pub active_streams: usize,
    pub recently_selected: bool,
    pub total_ready: usize,
    /// As much time has passed since the last scan as is left to a source without ready images.
    pub backoff_over: bool,
}

/// A source need not be scanned.
pub open spec fn scan_rests(local_directory: bool, profile: ReadyTargetProfile, facts: ScanFacts) -> bool {
    &&& !local_directory
    &&& !facts.lock_hungry
    &&& facts.active_streams > 0
    &&& !facts.recently_selected
    &&& (facts.total_ready == 0 && !facts.backoff_over) || facts.total_ready >= profile.per_stream
}

/// Whether a source need not be scanned: it is not in use, and it either has enough ready images or
/// gave none a short while ago.
pub fn remote_source_scan_can_rest(source: &SourceConfig, facts: ScanFacts) -> (r: bool)
    ensures
        r == scan_rests(
            source.upstream is LocalDirectory,
            ReadyTargetProfile {
                per_stream: ready_frontier::REMOTE_READY_TARGET_PER_STREAM,
                cap: ready_frontier::REMOTE_READY_TARGET_CAP,
            },
            facts,
        ),
{
    if source.local_directory().is_some() {
        return false;
    }
    if facts.lock_hungry {
        return false;
    }
    if facts.active_streams == 0 {
        return false;
    }
    if facts.total_ready == 0 && !facts.recently_selected && !facts.backoff_over {
        return true;
    }
    let profile = ReadyTargetProfile::for_source(source);
    let frontier = SourceReadyFrontier::new(
        facts.total_ready,
        std::collections::HashMap::new(),
        facts.active_streams,
        profile,
    );
    if !frontier.source_idle_warm() {
        return false;
    }
    !facts.recently_selected
}

/// How many images of a source are to be ready: a remote source that is in use keeps more than one
/// that is not.
pub fn remote_source_materialization_profile(source: &SourceConfig, recently_selected: bool) -> (r:
    ReadyTargetProfile)
    ensures
        ({
            let full = match source.upstream {
                UpstreamSource::LocalDirectory(_) => ReadyTargetProfile {
                    per_stream: ready_frontier::LOCAL_DIRECTORY_READY_TARGET_PER_STREAM,
                    cap: ready_frontier::LOCAL_DIRECTORY_READY_TARGET_CAP,
                },
                UpstreamSource::FourChanBoard(_) => ReadyTargetProfile {
                    per_stream: ready_frontier::REMOTE_READY_TARGET_PER_STREAM,
                    cap: ready_frontier::REMOTE_READY_TARGET_CAP,
                },
            };
            r == if source.upstream is LocalDirectory {
                full
            } else if recently_selected {
                ReadyTargetProfile { cap: ready_frontier::REMOTE_SOURCE_RECENT_READY_CAP, ..full }
            } else {
                ReadyTargetProfile { cap: full.per_stream, ..full }
            }
        }),
{
    let profile = ReadyTargetProfile::for_source(source);
    if source.local_directory().is_some() {
        return profile;
    }
    if recently_selected {
        profile.capped(ready_frontier::REMOTE_SOURCE_RECENT_READY_CAP)
    } else {
        profile.capped(profile.idle_floor())
    }
}

} // verus!
