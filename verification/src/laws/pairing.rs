//! Which images meet, and where the next pair comes from.
use crate::laws::order;
use crate::model::{RemoteItemId, VisualKey};
use crate::pairing;
use crate::pairing::{
    ClusterSatellite, PairDraw, PairDraws, PairStep, PairingAsset, SourceMixRegime,
};
use crate::pool;
use crate::rank;
use crate::scalar::Scalar;
use vstd::prelude::*;

verus! {

/// A pair that was found is not thrown away: where there is an image or an anchor and the search ends
/// without a pair, no draw that was made gave one. One that was found and can still be shown is taken,
/// and where an outside pair and one of the collection were both found, chance decides.
pub proof fn found_pairs_are_not_thrown_away(
    regime: SourceMixRegime,
    anchored: bool,
    assets: nat,
    draws: PairDraws,
)
    requires
        anchored || assets > 0,
    ensures
        ({
            let step = pairing::pair_step_of(regime, anchored, assets, draws);
            let found = Some(true);
            &&& step is Nothing && regime == SourceMixRegime::LocalOnly ==> draws.fresh != found && (
            anchored || draws.loose != found)
            &&& step is Nothing && regime == SourceMixRegime::RemoteOnly ==> draws.outside != found
                && draws.fresh != found && (anchored || draws.loose != found)
            &&& step is Nothing && regime == SourceMixRegime::Mixed ==> draws.outside != found
                && draws.fresh != found
            &&& regime == SourceMixRegime::LocalOnly && draws.fresh == found ==> step
                == PairStep::Take(PairDraw::Fresh)
            &&& regime == SourceMixRegime::RemoteOnly && draws.outside == found ==> step
                == PairStep::Take(PairDraw::Outside)
            &&& regime == SourceMixRegime::RemoteOnly && draws.outside == Some(false) && draws.fresh
                == found ==> step == PairStep::Take(PairDraw::Fresh)
            &&& regime == SourceMixRegime::Mixed && draws.outside == found && draws.fresh == Some(
                false,
            ) ==> step == PairStep::Take(PairDraw::Outside)
            &&& regime == SourceMixRegime::Mixed && draws.outside == Some(false) && draws.fresh
                == found ==> step == PairStep::Take(PairDraw::Fresh)
            &&& step is Toss <==> regime == SourceMixRegime::Mixed && draws.outside == found
                && draws.fresh == found
        }),
{
}

/// The search gives up only after all draws that the mix allows were made and gave nothing: with no
/// image and no anchor none is, round an anchor the loose draw is not.
pub proof fn the_search_tries_all_that_may_be_drawn(
    regime: SourceMixRegime,
    anchored: bool,
    assets: nat,
    draws: PairDraws,
)
    ensures
        ({
            let step = pairing::pair_step_of(regime, anchored, assets, draws);
            let empty = Some(false);
            let drawn_out = draws.fresh == empty && (anchored || draws.loose == empty);
            &&& !anchored && assets == 0 ==> step is Nothing
            &&& anchored || assets > 0 ==> (step is Nothing <==> match regime {
                SourceMixRegime::LocalOnly => drawn_out,
                SourceMixRegime::RemoteOnly => draws.outside == empty && drawn_out,
                SourceMixRegime::Mixed => draws.outside == empty && draws.fresh == empty,
            })
            &&& anchored || regime == SourceMixRegime::Mixed ==> step != PairStep::Draw(
                PairDraw::Loose,
            ) && step != PairStep::Take(PairDraw::Loose)
            &&& step == PairStep::Draw(PairDraw::Loose) ==> draws.fresh == empty
            &&& step == PairStep::Draw(PairDraw::Fresh) && regime == SourceMixRegime::RemoteOnly
                ==> draws.outside == empty
        }),
{
}

/// What the search does when nothing is known yet, and with what it then finds.
pub open spec fn pursued(
    regime: SourceMixRegime,
    anchored: bool,
    assets: nat,
    finds: PairDraws,
    draws: PairDraws,
    fuel: nat,
) -> PairStep
    decreases fuel,
{
    let step = pairing::pair_step_of(regime, anchored, assets, draws);
    if fuel == 0 {
        step
    } else {
        match step {
            PairStep::Draw(PairDraw::Outside) => pursued(
                regime,
                anchored,
                assets,
                finds,
                PairDraws { outside: finds.outside, ..draws },
                (fuel - 1) as nat,
            ),
            PairStep::Draw(PairDraw::Fresh) => pursued(
                regime,
                anchored,
                assets,
                finds,
                PairDraws { fresh: finds.fresh, ..draws },
                (fuel - 1) as nat,
            ),
            PairStep::Draw(PairDraw::Loose) => pursued(
                regime,
                anchored,
                assets,
                finds,
                PairDraws { loose: finds.loose, ..draws },
                (fuel - 1) as nat,
            ),
            _ => step,
        }
    }
}

/// From nothing drawn, three draws settle which pair is shown. A collection alone shows one of its
/// fresh pairs, else a loose one. Outside images alone come first where they are asked for, and the
/// collection stands in. In a mix chance decides where both were found, else what was found is shown.
pub proof fn three_draws_settle_the_pair(
    anchored: bool,
    assets: nat,
    outside: bool,
    fresh: bool,
    loose: bool,
)
    requires
        anchored || assets > 0,
    ensures
        ({
            let none = PairDraws { outside: None, fresh: None, loose: None };
            let finds = PairDraws { outside: Some(outside), fresh: Some(fresh), loose: Some(loose) };
            let own = if fresh {
                PairStep::Take(PairDraw::Fresh)
            } else if loose && !anchored {
                PairStep::Take(PairDraw::Loose)
            } else {
                PairStep::Nothing
            };
            &&& pursued(SourceMixRegime::LocalOnly, anchored, assets, finds, none, 3) == own
            &&& pursued(SourceMixRegime::RemoteOnly, anchored, assets, finds, none, 3) == if outside {
                PairStep::Take(PairDraw::Outside)
            } else {
                own
            }
            &&& pursued(SourceMixRegime::Mixed, anchored, assets, finds, none, 3) == if outside
                && fresh {
                PairStep::Toss
            } else if outside {
                PairStep::Take(PairDraw::Outside)
            } else if fresh {
                PairStep::Take(PairDraw::Fresh)
            } else {
                PairStep::Nothing
            }
        }),
{
    reveal_with_fuel(pursued, 4);
}

/// Outside images take no part at a probability of at most the smallest step at one, take all of it
/// from one less that step on, and are mixed in between and where the probability is no number.
pub proof fn the_mix_follows_the_probability(probability: Scalar)
    ensures
        ({
            let regime = pairing::regime_of(probability);
            &&& probability.nan() ==> regime == SourceMixRegime::Mixed
            &&& !probability.nan() && probability.order() <= 0x3400_0000 ==> regime
                == SourceMixRegime::LocalOnly
            &&& !probability.nan() && 0x3400_0000 < probability.order() < 0x3f7f_fffe ==> regime
                == SourceMixRegime::Mixed
            &&& !probability.nan() && probability.order() >= 0x3f7f_fffe ==> regime
                == SourceMixRegime::RemoteOnly
        }),
{
}

/// An image can be shown exactly where it was not shown lately and, if it has a look, that look was
/// not either; one without a look is never left out for it.
pub proof fn images_shown_lately_are_left_out(
    asset: PairingAsset,
    recent: Set<Seq<char>>,
    excluded: Set<Seq<char>>,
)
    ensures
        recent.contains(asset.id@) ==> !pairing::usable(asset, recent, excluded),
        asset.visual_key matches Some(key) && excluded.contains(key@) ==> !pairing::usable(
            asset,
            recent,
            excluded,
        ),
        !recent.contains(asset.id@) && (asset.visual_key matches Some(key) ==> !excluded.contains(key@))
            ==> pairing::usable(asset, recent, excluded),
        pairing::visual_excluded(asset.visual_key, excluded) <==> (asset.visual_key matches Some(key)
            && excluded.contains(key@)),
{
}

/// A look is left out exactly where it was shown lately or was named, unless it is the exempt one.
pub proof fn the_exempt_look_is_never_left_out(
    recent: Seq<VisualKey>,
    excluded: Set<Seq<char>>,
    exempt: Option<Seq<char>>,
    key: Seq<char>,
)
    ensures
        pairing::exclusions(recent, excluded, exempt).contains(key) <==> exempt != Some(key) && (
        excluded.contains(key) || exists|i: int|
            0 <= i < recent.len() && (#[trigger] recent[i])@ == key),
{
    let keys = pairing::keys_of(recent);
    if keys.to_set().contains(key) {
        let i = choose|i: int| 0 <= i < keys.len() && keys[i] == key;
        assert(recent[i]@ == key);
    }
    if exists|i: int| 0 <= i < recent.len() && (#[trigger] recent[i])@ == key {
        let i = choose|i: int| 0 <= i < recent.len() && (#[trigger] recent[i])@ == key;
        assert(keys[i] == key);
    }
}

/// Every image of the pool but the anchor itself is an opponent, and no other; they stand in the
/// order of the pool.
pub proof fn every_other_image_is_an_opponent(
    assets: Seq<PairingAsset>,
    pool: Seq<usize>,
    anchor: Seq<char>,
    place: usize,
)
    ensures
        pairing::opponents_of(assets, pool, anchor).contains(place) <==> pool.contains(place)
            && assets[place as int].id@ != anchor,
        pairing::opponents_of(assets, pool, anchor).len() <= pool.len(),
        (forall|i: int, j: int| 0 <= i < j < pool.len() ==> #[trigger] pool[i] < #[trigger] pool[j])
            ==> forall|i: int, j: int|
            0 <= i < j < pairing::opponents_of(assets, pool, anchor).len()
                ==> #[trigger] pairing::opponents_of(assets, pool, anchor)[i]
                < #[trigger] pairing::opponents_of(assets, pool, anchor)[j],
    decreases pool.len(),
{
    reveal(Seq::filter);
    let r = pairing::opponents_of(assets, pool, anchor);
    if pool.len() > 0 {
        let fewer = pool.drop_last();
        every_other_image_is_an_opponent(assets, fewer, anchor, place);
        let before = pairing::opponents_of(assets, fewer, anchor);
        let last = pool.last();
        assert(pool == fewer.push(last)) by {
            assert(pool =~= fewer.push(last));
        }
        assert(pool.contains(place) <==> fewer.contains(place) || place == last) by {
            if pool.contains(place) {
                let i = choose|i: int| 0 <= i < pool.len() && pool[i] == place;
                if i < fewer.len() {
                    assert(fewer[i] == place);
                }
            }
            if fewer.contains(place) {
                let i = choose|i: int| 0 <= i < fewer.len() && fewer[i] == place;
                assert(pool[i] == place);
            }
            assert(pool[pool.len() - 1] == last);
        }
        let wanted = assets[last as int].id@ != anchor;
        assert(r == if wanted {
            before.push(last)
        } else {
            before
        });
        if wanted {
            if r.contains(place) {
                let i = choose|i: int| 0 <= i < r.len() && r[i] == place;
                if i < before.len() {
                    assert(before[i] == place);
                }
            }
            if before.contains(place) {
                let i = choose|i: int| 0 <= i < before.len() && before[i] == place;
                assert(r[i] == place);
            }
            assert(r[r.len() - 1] == last);
        }
        if forall|i: int, j: int| 0 <= i < j < pool.len() ==> #[trigger] pool[i] < #[trigger] pool[j] {
            assert forall|i: int, j: int| 0 <= i < j < fewer.len() implies #[trigger] fewer[i]
                < #[trigger] fewer[j] by {
                assert(pool[i] < pool[j]);
            }
            assert forall|i: int, j: int| 0 <= i < j < r.len() implies #[trigger] r[i]
                < #[trigger] r[j] by {
                if j < before.len() {
                    assert(before[i] < before[j]);
                } else {
                    assert(fewer.contains(before[i])) by {
                        every_other_image_is_an_opponent(assets, fewer, anchor, before[i]);
                        assert(before.contains(before[i]));
                    }
                    let k = choose|k: int| 0 <= k < fewer.len() && fewer[k] == before[i];
                    assert(pool[k] < pool[pool.len() - 1]);
                }
            }
        }
    }
}

/// An image is found at the first place that holds its name, and behind the list only where no place
/// does.
pub proof fn anchors_are_found_at_their_first_place(assets: Seq<PairingAsset>, id: Seq<char>)
    ensures
        0 <= pairing::pairing_place(assets, id) <= assets.len(),
        forall|j: int|
            0 <= j < pairing::pairing_place(assets, id) ==> (#[trigger] assets[j]).id@ != id,
        pairing::pairing_place(assets, id) < assets.len() ==> assets[pairing::pairing_place(
            assets,
            id,
        )].id@ == id,
    decreases assets.len(),
{
    if assets.len() > 0 && assets[0].id@ != id {
        let rest = assets.skip(1);
        anchors_are_found_at_their_first_place(rest, id);
        assert forall|j: int| 0 <= j < pairing::pairing_place(assets, id) implies (
        #[trigger] assets[j]).id@ != id by {
            if j > 0 {
                assert(rest[j - 1].id@ != id);
            }
        }
    }
}

/// Look-alikes are looked for exactly where the radius is above zero or no number.
pub proof fn look_alikes_need_a_radius(radius: Scalar)
    ensures
        pairing::clusters_at(radius) <==> radius.nan() || radius.order() > 0,
{
}

/// The look-alikes of an image are listed each once and from the closest on, at equal distance by their
/// numbers. The image itself is never among them, nor one that is not there; every other is.
pub proof fn look_alikes_are_listed_from_the_closest_on(
    order: Seq<usize>,
    found: Seq<ClusterSatellite>,
    item_id: RemoteItemId,
    i: int,
    j: int,
    k: usize,
)
    requires
        pairing::is_satellite_order(order, found, item_id),
        0 <= i < j < order.len(),
        k < found.len(),
    ensures
        order[i] != order[j],
        !found[order[j] as int].distance.below(found[order[i] as int].distance),
        found[order[i] as int].distance.bits == found[order[j] as int].distance.bits
            ==> found[order[i] as int].item_id.0 <= found[order[j] as int].item_id.0,
        order.contains(k) <==> found[k as int].item_id != item_id && found[k as int].available,
{
    let (a, b) = (found[order[i] as int], found[order[j] as int]);
    let key = |i: int| pairing::satellite_key(found[i]);
    assert(rank::comes_first(key, order[i] as int, order[j] as int));
    order::numbers_are_placed_by_size(a.distance, b.distance);
    order::numbers_are_placed_by_size(b.distance, a.distance);
    rank::lemma_lex_order(key(order[i] as int), key(order[j] as int), key(order[i] as int));
    let (x, y) = (pairing::satellite_key(a), pairing::satellite_key(b));
    if a.distance.place() != b.distance.place() {
        order::keys_are_compared_from_the_front(x, y, 0);
        assert(x[0] == a.distance.place() as i128 && y[0] == b.distance.place() as i128);
    } else if a.item_id.0 != b.item_id.0 {
        order::keys_are_compared_from_the_front(x, y, 1);
        assert(x[1] == a.item_id.0 as i128 && y[1] == b.item_id.0 as i128);
    }
    if x == y {
        assert(x[0] == y[0]);
    }
    if order.contains(k) {
        let p = choose|p: int| 0 <= p < order.len() && order[p] == k;
        assert(order[p] < found.len());
    }
}

/// Beside an anchor every other image can be shown that was not shown of late and does not look like one
/// that was, and nothing else can.
pub proof fn opponents_are_other_images(
    pool: Seq<usize>,
    assets: Seq<PairingAsset>,
    anchor: Seq<char>,
    recent: Set<Seq<char>>,
    excluded: Set<Seq<char>>,
    at: usize,
)
    requires
        pairing::is_opponent_pool(pool, assets, anchor, recent, excluded),
        at < assets.len(),
    ensures
        pool.contains(at) <==> assets[at as int].id@ != anchor && !recent.contains(assets[at as int].id@)
            && !pairing::visual_excluded(assets[at as int].visual_key, excluded),
        pool.no_duplicates(),
{
    let keep = |i: int| assets[i].id@ != anchor && pairing::usable(assets[i], recent, excluded);
    assert(pool::selects(pool, assets.len() as int, keep));
    if pool.contains(at) {
        let i = choose|i: int| 0 <= i < pool.len() && pool[i] == at;
        assert(keep(pool[i] as int));
    }
    if keep(at as int) {
        assert(pool.contains(at));
    }
    assert forall|i: int, j: int| 0 <= i < pool.len() && 0 <= j < pool.len() && i != j implies pool[i]
        != pool[j] by {
        if i < j {
            assert(pool[i] < pool[j]);
        } else {
            assert(pool[j] < pool[i]);
        }
    }
}

} // verus!
