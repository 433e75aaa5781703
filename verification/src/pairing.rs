//! Which images can meet in the arena, and from where the next pair is drawn.
use crate::arena_session::ArenaPairRef;
use crate::model::{ArenaHandle, AssetId, RemoteItemId, SessionSubsourceLock, VisualKey};
use crate::pool;
use crate::rank;
use crate::scalar::Scalar;
use crate::textset::TextSet;
use vstd::prelude::*;

verus! {

/// The smallest single-precision step at one.
pub const EPSILON_BITS: u32 = 0x3400_0000;

/// One less that step.
pub const NEARLY_ONE_BITS: u32 = 0x3f7f_fffe;

/// How many look-alikes of an outside image are shown.
pub const CLUSTER_LIMIT: usize = 12;

/// An image that can meet another.
#[derive(Debug)]
pub struct PairingAsset {
    pub id: AssetId,
    pub visual_key: Option<VisualKey>,
}

/// The picture was shown too recently.
pub open spec fn visual_excluded(visual_key: Option<VisualKey>, excluded: Set<Seq<char>>) -> bool {
    match visual_key {
        Some(key) => excluded.contains(key@),
        None => false,
    }
}

/// The image was neither shown nor does it look like one that was shown too recently.
pub open spec fn usable(asset: PairingAsset, recent: Set<Seq<char>>, excluded: Set<Seq<char>>) -> bool {
    !recent.contains(asset.id@) && !visual_excluded(asset.visual_key, excluded)
}

/// Whether a picture was shown too recently.
pub fn visual_key_excluded(visual_key: &Option<VisualKey>, excluded: &TextSet) -> (r: bool)
    ensures
        r == visual_excluded(*visual_key, excluded@),
{
    match visual_key {
        Some(key) => excluded.contains(&key.0),
        None => false,
    }
}

/// How many of the latest images may not be shown again: none in a collection that is no larger.
pub fn repeat_window(assets: usize, window: usize) -> (r: usize)
    ensures
        r == if assets > window {
            window
        } else {
            0
        },
{
    if assets > window {
        window
    } else {
        0
    }
}

/// The pictures that may not be shown: those shown lately and those given, but never the exempt one.
pub fn effective_visual_exclusions(
    recent: &Vec<VisualKey>,
    excluded: &TextSet,
    exempt: Option<&VisualKey>,
) -> (r: TextSet)
    ensures
        r@ == exclusions(recent@, excluded@, match exempt {
            None => None,
            Some(key) => Some(key@),
        }),
{
    let mut effective = excluded.clone();
    let mut i: usize = 0;
    proof {
        assert(keys_of(recent@.take(0)) =~= Seq::<Seq<char>>::empty());
        assert(excluded@.union(keys_of(recent@.take(0)).to_set()) =~= excluded@);
    }
    while i < recent.len()
        invariant
            i <= recent.len(),
            effective@ == excluded@.union(keys_of(recent@.take(i as int)).to_set()),
        decreases recent.len() - i,
    {
        let _fresh = effective.insert(recent[i].0.clone());
        proof {
            let before = keys_of(recent@.take(i as int));
            assert(keys_of(recent@.take(i + 1)) =~= before.push(recent@[i as int]@));
            crate::textset::lemma_push_to_set(before, recent@[i as int]@);
            assert(effective@ =~= excluded@.union(keys_of(recent@.take(i + 1)).to_set()));
        }
        i += 1;
    }
    assert(recent@.take(i as int) =~= recent@);
    match exempt {
        None => {},
        Some(key) => {
            effective.remove(&key.0);
        },
    }
    effective
}

/// The names of pictures.
pub open spec fn keys_of(keys: Seq<VisualKey>) -> Seq<Seq<char>> {
    keys.map_values(|key: VisualKey| key@)
}

/// The pictures that may not be shown.
pub open spec fn exclusions(
    recent: Seq<VisualKey>,
    excluded: Set<Seq<char>>,
    exempt: Option<Seq<char>>,
) -> Set<Seq<char>> {
    let all = excluded.union(keys_of(recent).to_set());
    match exempt {
        None => all,
        Some(key) => all.remove(key),
    }
}

/// `pool` lists the places of the images that can be shown.
pub open spec fn is_usable_pool(
    pool: Seq<usize>,
    assets: Seq<PairingAsset>,
    recent: Set<Seq<char>>,
    excluded: Set<Seq<char>>,
) -> bool {
    pool::selects(pool, assets.len() as int, |i: int| usable(assets[i], recent, excluded))
}

/// `pool` lists the places of the images that can be shown beside `anchor`.
pub open spec fn is_opponent_pool(
    pool: Seq<usize>,
    assets: Seq<PairingAsset>,
    anchor: Seq<char>,
    recent: Set<Seq<char>>,
    excluded: Set<Seq<char>>,
) -> bool {
    pool::selects(
        pool,
        assets.len() as int,
        |i: int| assets[i].id@ != anchor && usable(assets[i], recent, excluded),
    )
}

/// The places of the images that can be shown.
pub fn usable_pool(assets: &Vec<PairingAsset>, recent: &TextSet, excluded: &TextSet) -> (pool: Vec<
    usize,
>)
    ensures
        is_usable_pool(pool@, assets@, recent@, excluded@),
{
    let mut flags: Vec<bool> = Vec::new();
    let mut i: usize = 0;
    while i < assets.len()
        invariant
            i <= assets.len(),
            flags.len() == i,
            forall|j: int| 0 <= j < i ==> #[trigger] flags@[j] == usable(assets@[j], recent@, excluded@),
        decreases assets.len() - i,
    {
        let keep = !recent.contains(&assets[i].id.0) && !visual_key_excluded(
            &assets[i].visual_key,
            excluded,
        );
        flags.push(keep);
        i += 1;
    }
    let chosen = pool::select(&flags);
    proof {
        pool::lemma_selects_by_flags(
            chosen@,
            flags@,
            |j: int| usable(assets@[j], recent@, excluded@),
        );
    }
    chosen
}

/// The images that a pair of the collection is drawn from: at least two that can be shown.
pub fn local_pool(assets: &Vec<PairingAsset>, recent: &TextSet, excluded: &TextSet) -> (r: Option<
    Vec<usize>,
>)
    ensures
        exists|pool: Seq<usize>| #[trigger]
            is_usable_pool(pool, assets@, recent@, excluded@) && match r {
                Some(chosen) => chosen@ == pool && pool.len() >= 2,
                None => pool.len() < 2,
            },
{
    let chosen = usable_pool(assets, recent, excluded);
    let ghost pool = chosen@;
    if chosen.len() < 2 {
        assert(is_usable_pool(pool, assets@, recent@, excluded@));
        None
    } else {
        assert(is_usable_pool(pool, assets@, recent@, excluded@));
        Some(chosen)
    }
}

/// The images that an anchor for an outside image is drawn from: at least one that can be shown.
pub fn anchor_pool(assets: &Vec<PairingAsset>, recent: &TextSet, excluded: &TextSet) -> (r: Option<
    Vec<usize>,
>)
    ensures
        exists|pool: Seq<usize>| #[trigger]
            is_usable_pool(pool, assets@, recent@, excluded@) && match r {
                Some(chosen) => chosen@ == pool && pool.len() >= 1,
                None => pool.len() == 0,
            },
{
    let chosen = usable_pool(assets, recent, excluded);
    let ghost pool = chosen@;
    assert(is_usable_pool(pool, assets@, recent@, excluded@));
    if chosen.len() == 0 {
        None
    } else {
        Some(chosen)
    }
}

/// Those of `pool` that are another image than the anchor at `anchor_index`.
pub fn opponents(assets: &Vec<PairingAsset>, pool: &Vec<usize>, anchor_index: usize) -> (r: Vec<
    usize,
>)
    requires
        anchor_index < pool@.len(),
        forall|i: int| 0 <= i < pool@.len() ==> (#[trigger] pool@[i]) < assets@.len(),
    ensures
        r@ == opponents_of(assets@, pool@, assets@[pool@[anchor_index as int] as int].id@),
        forall|i: int| 0 <= i < r@.len() ==> (#[trigger] r@[i]) < assets@.len(),
{
    let anchor = pool[anchor_index];
    assert(pool@[anchor_index as int] < assets@.len());
    let mut r: Vec<usize> = Vec::new();
    let mut i: usize = 0;
    assert(opponents_of(assets@, pool@.take(0), assets@[anchor as int].id@) =~= Seq::<usize>::empty())
        by {
        reveal(Seq::filter);
    }
    while i < pool.len()
        invariant
            i <= pool.len(),
            anchor < assets.len(),
            forall|j: int| 0 <= j < pool@.len() ==> (#[trigger] pool@[j]) < assets@.len(),
            r@ == opponents_of(assets@, pool@.take(i as int), assets@[anchor as int].id@),
            forall|j: int| 0 <= j < r@.len() ==> (#[trigger] r@[j]) < assets@.len(),
        decreases pool.len() - i,
    {
        let candidate = pool[i];
        proof {
            reveal(Seq::filter);
            assert(pool@.take(i + 1).drop_last() =~= pool@.take(i as int));
            assert(pool@.take(i + 1).last() == candidate);
        }
        if !assets[candidate].id.same(&assets[anchor].id) {
            r.push(candidate);
        }
        i += 1;
    }
    assert(pool@.take(i as int) =~= pool@);
    r
}

/// Those of `pool` that are another image than `anchor`.
pub open spec fn opponents_of(assets: Seq<PairingAsset>, pool: Seq<usize>, anchor: Seq<char>) -> Seq<
    usize,
> {
    pool.filter(|k: usize| assets[k as int].id@ != anchor)
}

/// The images that can meet a given anchor, where the collection has at least two.
pub fn anchor_opponents(
    assets: &Vec<PairingAsset>,
    anchor: &AssetId,
    recent: &TextSet,
    excluded: &TextSet,
) -> (r: Option<Vec<usize>>)
    ensures
        exists|pool: Seq<usize>| #[trigger]
            is_opponent_pool(pool, assets@, anchor@, recent@, excluded@) && match r {
                Some(chosen) => chosen@ == pool && pool.len() >= 1 && assets@.len() >= 2,
                None => pool.len() == 0 || assets@.len() < 2,
            },
{
    let mut flags: Vec<bool> = Vec::new();
    let mut i: usize = 0;
    while i < assets.len()
        invariant
            i <= assets.len(),
            flags.len() == i,
            forall|j: int|
                0 <= j < i ==> #[trigger] flags@[j] == (assets@[j].id@ != anchor@ && usable(
                    assets@[j],
                    recent@,
                    excluded@,
                )),
        decreases assets.len() - i,
    {
        let keep = !assets[i].id.same(anchor) && !recent.contains(&assets[i].id.0)
            && !visual_key_excluded(&assets[i].visual_key, excluded);
        flags.push(keep);
        i += 1;
    }
    let chosen = pool::select(&flags);
    let ghost pool = chosen@;
    proof {
        pool::lemma_selects_by_flags(
            pool,
            flags@,
            |j: int| assets@[j].id@ != anchor@ && usable(assets@[j], recent@, excluded@),
        );
        assert(is_opponent_pool(pool, assets@, anchor@, recent@, excluded@));
    }
    if assets.len() < 2 || chosen.len() == 0 {
        None
    } else {
        Some(chosen)
    }
}

/// The pair of two images of the collection.
pub fn local_pair(assets: &Vec<PairingAsset>, anchor: usize, opponent: usize) -> (r: ArenaPairRef)
    requires
        anchor < assets@.len(),
        opponent < assets@.len(),
    ensures
        r.left == ArenaHandle::Local(assets@[anchor as int].id),
        r.right == ArenaHandle::Local(assets@[opponent as int].id),
{
    ArenaPairRef::forge(
        ArenaHandle::Local(assets[anchor].id.clone()),
        ArenaHandle::Local(assets[opponent].id.clone()),
    )
}

/// A pair of the collection is of two different images, none of which, nor its picture, was shown
/// too recently.
pub proof fn local_pairs_are_fresh(
    assets: Seq<PairingAsset>,
    recent: Set<Seq<char>>,
    excluded: Set<Seq<char>>,
    pool: Seq<usize>,
    anchor_index: int,
    opponent_index: int,
)
    requires
        is_usable_pool(pool, assets, recent, excluded),
        0 <= anchor_index < pool.len(),
        0 <= opponent_index < opponents_of(
            assets,
            pool,
            assets[pool[anchor_index] as int].id@,
        ).len(),
    ensures
        ({
            let anchor = assets[pool[anchor_index] as int];
            let opponent = assets[opponents_of(assets, pool, anchor.id@)[opponent_index] as int];
            &&& anchor.id@ != opponent.id@
            &&& usable(anchor, recent, excluded)
            &&& usable(opponent, recent, excluded)
        }),
{
    let keep = |i: int| usable(assets[i], recent, excluded);
    let anchor = assets[pool[anchor_index] as int];
    assert(keep(pool[anchor_index] as int));
    let others = |k: usize| assets[k as int].id@ != anchor.id@;
    let chosen = pool.filter(others);
    let k = chosen[opponent_index];
    pool.lemma_filter_contains_rev(others, k);
    pool.lemma_filter_pred(others, opponent_index);
    let j = choose|j: int| 0 <= j < pool.len() && pool[j] == k;
    assert(keep(pool[j] as int));
}

/// How far outside images take part.
#[derive(Debug, Clone, Copy, PartialEq, Eq, Structural)]
pub enum SourceMixRegime {
    LocalOnly,
    Mixed,
    RemoteOnly,
}

/// How far outside images take part at a probability.
pub open spec fn regime_of(probability: Scalar) -> SourceMixRegime {
    if (Scalar { bits: EPSILON_BITS }).reaches(probability) {
        SourceMixRegime::LocalOnly
    } else if probability.reaches(Scalar { bits: NEARLY_ONE_BITS }) {
        SourceMixRegime::RemoteOnly
    } else {
        SourceMixRegime::Mixed
    }
}

/// How far outside images take part at a probability.
pub fn source_mix_regime(probability: Scalar) -> (r: SourceMixRegime)
    ensures
        r == regime_of(probability),
{
    let epsilon = Scalar { bits: EPSILON_BITS };
    if epsilon.does_reach(probability) {
        SourceMixRegime::LocalOnly
    } else if probability.does_reach(Scalar { bits: NEARLY_ONE_BITS }) {
        SourceMixRegime::RemoteOnly
    } else {
        SourceMixRegime::Mixed
    }
}

/// What a pair can be drawn from.
#[derive(Debug, Clone, Copy, PartialEq, Eq, Structural)]
pub enum PairDraw {
    /// An image of the collection against an outside one.
    Outside,
    /// Two images of the collection, none of which was shown lately.
    Fresh,
    /// Two images of the collection, of which only those given are left out.
    Loose,
}

/// Which draws were made, and whether they gave a pair.
#[derive(Debug, Clone, Copy, PartialEq, Eq, Structural)]
pub struct PairDraws {
    pub outside: Option<bool>,
    pub fresh: Option<bool>,
    pub loose: Option<bool>,
}

/// What is done next to get a pair.
#[derive(Debug, Clone, Copy, PartialEq, Eq, Structural)]
pub enum PairStep {
    Draw(PairDraw),
    Take(PairDraw),
    /// Both draws gave a pair, and chance decides.
    Toss,
    Nothing,
}

/// What is drawn from the collection alone.
pub open spec fn local_step(anchored: bool, draws: PairDraws) -> PairStep {
    match draws.fresh {
        None => PairStep::Draw(PairDraw::Fresh),
        Some(true) => PairStep::Take(PairDraw::Fresh),
        Some(false) => if anchored {
            PairStep::Nothing
        } else {
            match draws.loose {
                None => PairStep::Draw(PairDraw::Loose),
                Some(true) => PairStep::Take(PairDraw::Loose),
                Some(false) => PairStep::Nothing,
            }
        },
    }
}

/// What is done next to get a pair: for a given anchor, or for any of `assets` images.
pub open spec fn pair_step_of(
    regime: SourceMixRegime,
    anchored: bool,
    assets: nat,
    draws: PairDraws,
) -> PairStep {
    if !anchored && assets == 0 {
        PairStep::Nothing
    } else {
        match regime {
            SourceMixRegime::LocalOnly => local_step(anchored, draws),
            SourceMixRegime::RemoteOnly => match draws.outside {
                None => PairStep::Draw(PairDraw::Outside),
                Some(true) => PairStep::Take(PairDraw::Outside),
                Some(false) => local_step(anchored, draws),
            },
            SourceMixRegime::Mixed => match (draws.fresh, draws.outside) {
                (None, _) => PairStep::Draw(PairDraw::Fresh),
                (_, None) => PairStep::Draw(PairDraw::Outside),
                (Some(false), Some(false)) => PairStep::Nothing,
                (Some(true), Some(false)) => PairStep::Take(PairDraw::Fresh),
                (Some(false), Some(true)) => PairStep::Take(PairDraw::Outside),
                (Some(true), Some(true)) => PairStep::Toss,
            },
        }
    }
}

/// What is done next to get a pair.
pub fn pair_step(regime: SourceMixRegime, anchored: bool, assets: usize, draws: PairDraws) -> (r:
    PairStep)
    ensures
        r == pair_step_of(regime, anchored, assets as nat, draws),
        (anchored || assets > 0) && draws.fresh == Some(true) && (regime is LocalOnly || draws.outside
            == Some(false)) ==> r == PairStep::Take(PairDraw::Fresh),
        (anchored || assets > 0) && draws.outside == Some(true) && (regime is RemoteOnly || (regime
            is Mixed && draws.fresh == Some(false))) ==> r == PairStep::Take(PairDraw::Outside),
{
    if !anchored && assets == 0 {
        return PairStep::Nothing;
    }
    match regime {
        SourceMixRegime::RemoteOnly => match draws.outside {
            None => {
                return PairStep::Draw(PairDraw::Outside);
            },
            Some(true) => {
                return PairStep::Take(PairDraw::Outside);
            },
            Some(false) => {},
        },
        SourceMixRegime::Mixed => {
            return match (draws.fresh, draws.outside) {
                (None, _) => PairStep::Draw(PairDraw::Fresh),
                (_, None) => PairStep::Draw(PairDraw::Outside),
                (Some(false), Some(false)) => PairStep::Nothing,
                (Some(true), Some(false)) => PairStep::Take(PairDraw::Fresh),
                (Some(false), Some(true)) => PairStep::Take(PairDraw::Outside),
                (Some(true), Some(true)) => PairStep::Toss,
            };
        },
        SourceMixRegime::LocalOnly => {},
    }
    match draws.fresh {
        None => PairStep::Draw(PairDraw::Fresh),
        Some(true) => PairStep::Take(PairDraw::Fresh),
        Some(false) => {
            if anchored {
                PairStep::Nothing
            } else {
                match draws.loose {
                    None => PairStep::Draw(PairDraw::Loose),
                    Some(true) => PairStep::Take(PairDraw::Loose),
                    Some(false) => PairStep::Nothing,
                }
            }
        },
    }
}

/// What a draw has given.
pub open spec fn drawn(draws: PairDraws, draw: PairDraw) -> Option<bool> {
    match draw {
        PairDraw::Outside => draws.outside,
        PairDraw::Fresh => draws.fresh,
        PairDraw::Loose => draws.loose,
    }
}

/// No draw is made twice, and what is taken was found.
pub proof fn draws_are_made_once(
    regime: SourceMixRegime,
    anchored: bool,
    assets: nat,
    draws: PairDraws,
    draw: PairDraw,
)
    ensures
        pair_step_of(regime, anchored, assets, draws) == PairStep::Draw(draw) ==> drawn(draws, draw)
            is None,
        pair_step_of(regime, anchored, assets, draws) == PairStep::Take(draw) ==> drawn(draws, draw)
            == Some(true),
        pair_step_of(regime, anchored, assets, draws) == PairStep::Toss ==> draws.fresh == Some(true)
            && draws.outside == Some(true),
{
}

/// A collection that shows no outside images draws none; one that shows only outside images takes a
/// pair of its own only where no outside image was found.
pub proof fn the_regime_is_kept(
    regime: SourceMixRegime,
    anchored: bool,
    assets: nat,
    draws: PairDraws,
)
    ensures
        regime == SourceMixRegime::LocalOnly ==> {
            let step = pair_step_of(regime, anchored, assets, draws);
            step != PairStep::Draw(PairDraw::Outside) && step != PairStep::Take(PairDraw::Outside)
                && step != PairStep::Toss
        },
        regime == SourceMixRegime::RemoteOnly ==> {
            let step = pair_step_of(regime, anchored, assets, draws);
            (step == PairStep::Take(PairDraw::Fresh) || step == PairStep::Take(PairDraw::Loose))
                ==> draws.outside == Some(false)
        },
{
}

/// The outside pair with the given probability where both are there, else the one that is. `draw` is
/// a number drawn evenly from zero up to one.
pub fn choose_pair_source<T>(
    draw: Scalar,
    external_probability: Scalar,
    local_pair: Option<T>,
    external_pair: Option<T>,
) -> (r: Option<T>)
    ensures
        r == match (local_pair, external_pair) {
            (None, None) => None,
            (Some(pair), None) => Some(pair),
            (None, Some(pair)) => Some(pair),
            (Some(local), Some(external)) => if draw.below(external_probability) {
                Some(external)
            } else {
                Some(local)
            },
        },
{
    match (local_pair, external_pair) {
        (None, None) => None,
        (Some(pair), None) => Some(pair),
        (None, Some(pair)) => Some(pair),
        (Some(local_pair), Some(external_pair)) => {
            if draw.is_below(external_probability) {
                Some(external_pair)
            } else {
                Some(local_pair)
            }
        },
    }
}

/// At probability one every draw below one is below it, and at probability zero none that is not
/// negative is.
pub proof fn certain_and_impossible_sources(draw: Scalar)
    requires
        draw.finite(),
        0 <= draw.order() < 0x3f80_0000,
    ensures
        draw.below(Scalar { bits: 0x3f80_0000 }),
        !draw.below(Scalar { bits: 0 }),
{
}

/// The first place of an image.
pub open spec fn pairing_place(assets: Seq<PairingAsset>, id: Seq<char>) -> int
    decreases assets.len(),
{
    if assets.len() == 0 || assets[0].id@ == id {
        0
    } else {
        1 + pairing_place(assets.skip(1), id)
    }
}

/// The place of the anchor that is to be preserved, if it can still be shown.
pub fn preserved_anchor(assets: &Vec<PairingAsset>, local_anchor: Option<&AssetId>) -> (r: Option<
    usize,
>)
    ensures
        match (local_anchor, r) {
            (None, at) => at is None,
            (Some(id), None) => pairing_place(assets@, id@) == assets@.len(),
            (Some(id), Some(at)) => at < assets@.len() && at == pairing_place(assets@, id@)
                && assets@[at as int].id@ == id@,
        },
{
    let id = match local_anchor {
        None => {
            return None;
        },
        Some(id) => id,
    };
    let mut i: usize = 0;
    assert(assets@.skip(0) =~= assets@);
    while i < assets.len()
        invariant
            i <= assets.len(),
            local_anchor == Some(id),
            pairing_place(assets@, id@) == i + pairing_place(assets@.skip(i as int), id@),
        decreases assets.len() - i,
    {
        if assets[i].id.same(id) {
            assert(assets@.skip(i as int)[0].id@ == id@);
            return Some(i);
        }
        assert(assets@.skip(i as int).skip(1) =~= assets@.skip(i + 1));
        i += 1;
    }
    None
}

/// What an image of a locked thread is shown against.
#[derive(Debug)]
pub enum LockedAnchor {
    /// The anchor that is to be preserved.
    Given(usize),
    /// One of these.
    DrawFrom(Vec<usize>),
    Nothing,
}

/// What an image of a locked thread is shown against: the anchor that is to be preserved if it can
/// be shown, else any image that can.
pub fn locked_anchor(
    assets: &Vec<PairingAsset>,
    local_anchor: Option<&AssetId>,
    recent: &TextSet,
    excluded: &TextSet,
) -> (r: LockedAnchor)
    ensures
        ({
            let given = match local_anchor {
                None => false,
                Some(id) => pairing_place(assets@, id@) < assets@.len(),
            };
            match r {
                LockedAnchor::Given(at) => given && at == pairing_place(
                    assets@,
                    local_anchor.unwrap()@,
                ),
                LockedAnchor::DrawFrom(pool) => !given && pool@.len() >= 1 && is_usable_pool(pool@, assets@, recent@, excluded@),
                LockedAnchor::Nothing => !given && is_usable_pool(Seq::empty(), assets@, recent@, excluded@),
            }
        }),
{
    match preserved_anchor(assets, local_anchor) {
        Some(at) => {
            return LockedAnchor::Given(at);
        },
        None => {},
    }
    let chosen = usable_pool(assets, recent, excluded);
    if chosen.len() == 0 {
        assert(chosen@ =~= Seq::<usize>::empty());
        LockedAnchor::Nothing
    } else {
        LockedAnchor::DrawFrom(chosen)
    }
}

/// Whether the session is locked to the thread of an outside image.
pub fn stream_locked(lock: Option<&SessionSubsourceLock>, source_key: &str, stream_id: i64) -> (r: bool)
    ensures
        r == match lock {
            None => false,
            Some(lock) => lock@ == (source_key@, stream_id),
        },
{
    match lock {
        None => false,
        Some(lock) => crate::text::same_text(lock.source_key.as_str(), source_key) && lock.stream_id
            == stream_id,
    }
}

/// The image of the collection and the outside image of a pair that has one of each.
pub fn mixed_pair(left: &ArenaHandle, right: &ArenaHandle) -> (r: Option<(AssetId, RemoteItemId)>)
    ensures
        r == match (*left, *right) {
            (ArenaHandle::Local(asset_id), ArenaHandle::Remote(item_id)) => Some(
                (asset_id, item_id),
            ),
            (ArenaHandle::Remote(item_id), ArenaHandle::Local(asset_id)) => Some(
                (asset_id, item_id),
            ),
            _ => None,
        },
{
    match (left, right) {
        (ArenaHandle::Local(asset_id), ArenaHandle::Remote(item_id)) => Some(
            (asset_id.clone(), *item_id),
        ),
        (ArenaHandle::Remote(item_id), ArenaHandle::Local(asset_id)) => Some(
            (asset_id.clone(), *item_id),
        ),
        _ => None,
    }
}

/// An outside image close to another.
#[derive(Debug, Clone, Copy, PartialEq, Eq, Structural)]
pub struct ClusterSatellite {
    pub item_id: RemoteItemId,
    pub distance: Scalar,
    /// The image is known and its file is there.
    pub available: bool,
}

/// What look-alikes are ordered by: the closest first, then by number.
pub open spec fn satellite_key(satellite: ClusterSatellite) -> Seq<i128> {
    seq![satellite.distance.place() as i128, satellite.item_id.0 as i128]
}

/// Looking for look-alikes makes sense: the radius is positive or not a number.
pub open spec fn clusters_at(radius: Scalar) -> bool {
    !(Scalar { bits: 0 }).reaches(radius)
}

/// `order` lists the places of the look-alikes that can be shown, in order.
pub open spec fn is_satellite_order(
    order: Seq<usize>,
    found: Seq<ClusterSatellite>,
    item_id: RemoteItemId,
) -> bool {
    rank::is_ranked_choice(
        order,
        found.len() as int,
        |i: int| found[i].item_id != item_id && found[i].available,
        |i: int| satellite_key(found[i]),
    )
}

/// The look-alikes of an outside image among those that were found around it: the closest first, at
/// most a dozen.
pub fn cluster_around_remote(
    item_id: RemoteItemId,
    radius: Scalar,
    found: &Vec<ClusterSatellite>,
) -> (r: Option<Vec<ClusterSatellite>>)
    ensures
        !clusters_at(radius) ==> r is None,
        clusters_at(radius) ==> exists|order: Seq<usize>| #[trigger]
            is_satellite_order(order, found@, item_id) && match r {
                None => order.len() == 0,
                Some(satellites) => order.len() > 0 && satellites@ == satellites_at(
                    found@,
                    if order.len() > CLUSTER_LIMIT {
                        order.take(CLUSTER_LIMIT as int)
                    } else {
                        order
                    },
                ),
            },
{
    let zero = Scalar { bits: 0 };
    if zero.does_reach(radius) {
        return None;
    }
    let mut flags: Vec<bool> = Vec::new();
    let mut keys: Vec<Vec<i128>> = Vec::new();
    let mut i: usize = 0;
    while i < found.len()
        invariant
            i <= found.len(),
            flags.len() == i,
            keys.len() == i,
            forall|j: int|
                0 <= j < i ==> #[trigger] flags@[j] == (found@[j].item_id != item_id && found@[j].available),
            forall|j: int| 0 <= j < i ==> (#[trigger] keys@[j])@ == satellite_key(found@[j]),
        decreases found.len() - i,
    {
        let satellite = found[i];
        flags.push(satellite.item_id.0 != item_id.0 && satellite.available);
        let key = vec![satellite.distance.place_key(), satellite.item_id.0 as i128];
        assert(key@ =~= satellite_key(satellite));
        keys.push(key);
        i += 1;
    }
    let mut order = rank::ranked_choice(&flags, &keys);
    let ghost full = order@;
    proof {
        rank::lemma_ranked_by(
            full,
            flags@,
            keys@,
            |j: int| found@[j].item_id != item_id && found@[j].available,
            |j: int| satellite_key(found@[j]),
        );
        assert(is_satellite_order(full, found@, item_id));
    }
    if order.len() == 0 {
        return None;
    }
    order.truncate(CLUSTER_LIMIT);
    let ghost shown = order@;
    assert(shown =~= if full.len() > CLUSTER_LIMIT {
        full.take(CLUSTER_LIMIT as int)
    } else {
        full
    });
    let mut satellites: Vec<ClusterSatellite> = Vec::new();
    let mut at: usize = 0;
    while at < order.len()
        invariant
            at <= order.len(),
            order@ == shown,
            forall|j: int| 0 <= j < shown.len() ==> (#[trigger] shown[j]) < found.len(),
            satellites@ == satellites_at(found@, shown.take(at as int)),
        decreases order.len() - at,
    {
        satellites.push(found[order[at]]);
        proof {
            assert(satellites_at(found@, shown.take(at + 1)) =~= satellites_at(
                found@,
                shown.take(at as int),
            ).push(found@[shown[at as int] as int]));
        }
        at += 1;
    }
    assert(shown.take(at as int) =~= shown);
    Some(satellites)
}

/// What was found at the places of `order`.
pub open spec fn satellites_at(found: Seq<ClusterSatellite>, order: Seq<usize>) -> Seq<
    ClusterSatellite,
> {
    order.map_values(|k: usize| found[k as int])
}

} // verus!
