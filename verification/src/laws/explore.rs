//! Which images are compared three at a time.
use crate::explore;
use crate::explore::AssetTriad;
use crate::laws::order;
use crate::model::AssetId;
use crate::pool;
use crate::rank;
use crate::scalar::Scalar;
use vstd::prelude::*;

verus! {

/// Names stand in the order of a dictionary.
pub proof fn names_stand_as_in_a_dictionary(a: Seq<char>, b: Seq<char>)
    ensures
        explore::text_below(a, b) <==> order::text_before(a, b),
{
    order::texts_are_ordered_as_in_a_dictionary(a, b);
}

/// Another image is close where it has a distance. The image itself is only where that is asked for and
/// its distance is a number of at most a millionth.
pub proof fn images_are_close_by_their_distance(
    ids: Seq<AssetId>,
    focus: Seq<char>,
    distances: Seq<Option<Scalar>>,
    include_self: bool,
    i: int,
)
    ensures
        ({
            let close = explore::counts_as_neighbor(ids, focus, distances, include_self, i);
            let millionth = Scalar { bits: 0x3586_37bd };
            &&& distances[i] is None ==> !close
            &&& distances[i] is Some && ids[i]@ != focus ==> close
            &&& ids[i]@ == focus && !include_self ==> !close
            &&& ids[i]@ == focus && include_self ==> (close <==> distances[i] is Some
                && !distances[i]->0.nan() && distances[i]->0.order() <= millionth.order())
        }),
{
}

/// The images around another are those close to it, from the closest on, and of equally close ones in
/// the order of their names.
pub proof fn neighbors_stand_from_the_closest_on(
    places: Seq<usize>,
    ids: Seq<AssetId>,
    focus: Seq<char>,
    distances: Seq<Option<Scalar>>,
    include_self: bool,
    i: int,
    j: int,
)
    requires
        explore::is_neighbor_order(places, ids, focus, distances, include_self),
        0 <= i < j < places.len(),
    ensures
        ({
            let (a, b) = (places[i] as int, places[j] as int);
            &&& explore::counts_as_neighbor(ids, focus, distances, include_self, a)
            &&& explore::counts_as_neighbor(ids, focus, distances, include_self, b)
            &&& distances[a]->0.place() <= distances[b]->0.place()
            &&& distances[a] == distances[b] ==> ids[a]@ == ids[b]@ || order::text_before(
                ids[a]@,
                ids[b]@,
            )
        }),
{
    let (a, b) = (places[i] as int, places[j] as int);
    let keep = |k: int| explore::counts_as_neighbor(ids, focus, distances, include_self, k);
    let key = |k: int| explore::neighbor_key(ids, distances, k);
    assert(rank::is_ranked_choice(places, ids.len() as int, keep, key));
    assert(places[i] < ids.len() && keep(a));
    assert(places[j] < ids.len() && keep(b));
    assert(rank::comes_first(key, a, b));
    let (x, y) = (explore::neighbor_key(ids, distances, a), explore::neighbor_key(ids, distances, b));
    assert(key(a) == x && key(b) == y);
    let (p, q) = (distances[a]->0, distances[b]->0);
    order::numbers_are_placed_by_size(p, q);
    order::numbers_are_placed_by_size(q, p);
    rank::lemma_lex_order(x, y, x);
    assert(x[0] == p.place() && y[0] == q.place());
    if x[0] != y[0] {
        order::keys_are_compared_from_the_front(x, y, 0);
    } else {
        let front = seq![x[0]];
        assert(x =~= front + rank::text_key(ids[a]@));
        assert(y =~= front + rank::text_key(ids[b]@));
        order::common_beginnings_do_not_matter(
            front,
            rank::text_key(ids[a]@),
            rank::text_key(ids[b]@),
        );
        order::texts_are_ordered_as_in_a_dictionary(ids[a]@, ids[b]@);
    }
}

/// The first places are kept, as many as are asked for, and all where there are fewer.
pub proof fn the_first_places_are_kept(places: Seq<usize>, limit: int)
    requires
        0 <= limit,
    ensures
        explore::first_places(places, limit).len() == if places.len() <= limit {
            places.len() as int
        } else {
            limit
        },
        forall|i: int|
            0 <= i < explore::first_places(places, limit).len() ==> #[trigger] explore::first_places(
                places,
                limit,
            )[i] == places[i],
{
}

/// How often a name stands among three.
pub open spec fn times(t: (Seq<char>, Seq<char>, Seq<char>), name: Seq<char>) -> int {
    (if t.0 == name {
        1int
    } else {
        0
    }) + (if t.1 == name {
        1int
    } else {
        0
    }) + (if t.2 == name {
        1int
    } else {
        0
    })
}

/// Three names are the same three as others exactly where each name stands among both equally often.
pub proof fn three_names_are_the_same_in_any_order(
    t: (Seq<char>, Seq<char>, Seq<char>),
    u: (Seq<char>, Seq<char>, Seq<char>),
)
    ensures
        explore::same_three(t, u) <==> times(t, t.0) == times(u, t.0) && times(t, t.1) == times(u, t.1)
            && times(t, t.2) == times(u, t.2),
{
}

/// Every place that an image has in a comparison is counted.
pub proof fn comparisons_are_counted(recent: Seq<AssetTriad>, more: AssetTriad, id: Seq<char>)
    ensures
        explore::recent_count_of(Seq::empty(), id) == 0,
        explore::recent_count_of(recent.push(more), id) == explore::recent_count_of(recent, id) + times(
            (more.a@, more.b@, more.c@),
            id,
        ),
        explore::recent_count_of(recent, id) >= 0,
        explore::recent_count_of(recent, id) == 0 <==> forall|i: int|
            0 <= i < recent.len() ==> (#[trigger] recent[i]).a@ != id && recent[i].b@ != id && recent[i].c@
                != id,
    decreases recent.len(),
{
    assert(recent.push(more).drop_last() =~= recent);
    if recent.len() > 0 {
        let before = recent.drop_last();
        comparisons_are_counted(before, recent.last(), id);
        assert(before.push(recent.last()) =~= recent);
        if explore::recent_count_of(recent, id) == 0 {
            assert forall|i: int| 0 <= i < recent.len() implies (#[trigger] recent[i]).a@ != id
                && recent[i].b@ != id && recent[i].c@ != id by {
                if i < before.len() {
                    assert(before[i] == recent[i]);
                }
            }
        }
        if forall|i: int|
            0 <= i < recent.len() ==> (#[trigger] recent[i]).a@ != id && recent[i].b@ != id && recent[i].c@
                != id {
            assert forall|i: int| 0 <= i < before.len() implies (#[trigger] before[i]).a@ != id
                && before[i].b@ != id && before[i].c@ != id by {
                assert(recent[i] == before[i]);
            }
            assert(recent[recent.len() - 1] == recent.last());
        }
    }
}

/// Those places stay whose images were in no comparison of late.
pub proof fn images_compared_lately_are_left_out(
    ids: Seq<AssetId>,
    recent: Seq<AssetTriad>,
    places: Seq<usize>,
    at: usize,
)
    ensures
        explore::unseen(ids, recent, places).contains(at) <==> places.contains(at) && (forall|i: int|
            0 <= i < recent.len() ==> (#[trigger] recent[i]).a@ != ids[at as int]@ && recent[i].b@
                != ids[at as int]@ && recent[i].c@ != ids[at as int]@),
        explore::unseen(ids, recent, places).len() <= places.len(),
    decreases places.len(),
{
    reveal(Seq::filter);
    let id = ids[at as int]@;
    if places.len() == 0 {
        assert(explore::unseen(ids, recent, places).len() == 0);
    } else {
        let before = places.drop_last();
        images_compared_lately_are_left_out(ids, recent, before, at);
        comparisons_are_counted(recent, AssetTriad { a: ids[0], b: ids[0], c: ids[0] }, id);
        let (r, s) = (explore::unseen(ids, recent, places), explore::unseen(ids, recent, before));
        let last = places.last();
        assert(r == if explore::is_unseen(ids, recent, last) {
            s.push(last)
        } else {
            s
        });
        assert(places[places.len() - 1] == last);
        if places.contains(at) && at != last {
            let i = choose|i: int| 0 <= i < places.len() && places[i] == at;
            assert(before[i] == at);
        }
        if before.contains(at) {
            let i = choose|i: int| 0 <= i < before.len() && before[i] == at;
            assert(places[i] == at);
        }
        if s.contains(at) {
            let i = choose|i: int| 0 <= i < s.len() && s[i] == at;
            assert(r[i] == at);
        }
        if explore::is_unseen(ids, recent, last) {
            assert(r[s.len() as int] == last);
            if r.contains(at) && at != last {
                let i = choose|i: int| 0 <= i < r.len() && r[i] == at;
                assert(s[i] == at);
            }
        } else if at == last {
            if s.contains(at) {
                assert(explore::recent_count_of(recent, id) == 0);
            }
        }
    }
}

/// A triad begins with one of two dozen images at most: those not compared of late in their order, or
/// all in theirs where they are not three.
pub proof fn triads_begin_with_new_images(
    ids: Seq<AssetId>,
    recent: Seq<AssetTriad>,
    places: Seq<usize>,
)
    ensures
        ({
            let fresh = explore::unseen(ids, recent, places);
            let r = explore::anchors_of(ids, recent, places);
            &&& r.len() <= 24
            &&& fresh.len() >= 3 ==> r == fresh.take(
                if fresh.len() < 24 {
                    fresh.len() as int
                } else {
                    24
                },
            )
            &&& fresh.len() < 3 ==> r == places.take(
                if places.len() < 24 {
                    places.len() as int
                } else {
                    24
                },
            )
        }),
{
    let fresh = explore::unseen(ids, recent, places);
    if fresh.len() <= 24 {
        assert(fresh.take(fresh.len() as int) =~= fresh);
    }
    if places.len() <= 24 {
        assert(places.take(places.len() as int) =~= places);
    }
}

/// Beside the first image, those close to it are tried that were not compared of late where they are
/// two; else all that are close where these are two; else also all others, without those compared of
/// late while that leaves two.
pub proof fn triads_widen_until_there_are_two(
    r: Seq<usize>,
    ids: Seq<AssetId>,
    recent: Seq<AssetTriad>,
    anchor: usize,
    neighbors: Seq<usize>,
    at: usize,
)
    requires
        explore::are_triad_candidates(r, ids, recent, anchor, neighbors),
        ids.len() <= usize::MAX,
        at < ids.len(),
    ensures
        ({
            let fresh = explore::unseen(ids, recent, neighbors);
            let new = |k: usize| explore::recent_count_of(recent, ids[k as int]@) == 0;
            let wide = |k: usize| neighbors.contains(k) || (k != anchor && new(k));
            let two = exists|p: usize, q: usize|
                #![trigger wide(p), wide(q)]
                p < q && q < ids.len() && wide(p) && wide(q);
            &&& fresh.len() >= 2 ==> r == fresh
            &&& fresh.len() < 2 && neighbors.len() >= 2 ==> r == neighbors
            &&& fresh.len() < 2 && neighbors.len() < 2 && two ==> (r.contains(at) <==> wide(at))
            &&& fresh.len() < 2 && neighbors.len() < 2 && !two ==> (r.contains(at) <==> neighbors.contains(
                at,
            ) || at != anchor)
        }),
{
    let fresh = explore::unseen(ids, recent, neighbors);
    let new = |k: usize| explore::recent_count_of(recent, ids[k as int]@) == 0;
    let wide = |k: usize| neighbors.contains(k) || (k != anchor && new(k));
    if fresh.len() < 2 && neighbors.len() < 2 {
        let choice = explore::wider_choice(ids, recent, anchor, neighbors);
        let widest = explore::widest_choice(anchor, neighbors);
        let wider = choose|wider: Seq<usize>|
            {
                &&& #[trigger] pool::selects(wider, ids.len() as int, choice)
                &&& if wider.len() >= 2 {
                    r == wider
                } else {
                    pool::selects(r, ids.len() as int, widest)
                }
            };
        assert forall|k: usize| #[trigger] wide(k) <==> choice(k as int) by {}
        if wider.len() >= 2 {
            assert(wider[0] < wider[1]);
            assert(wider[0] < ids.len() && choice(wider[0] as int));
            assert(wider[1] < ids.len() && choice(wider[1] as int));
            assert(wide(wider[0]) && wide(wider[1]));
            if r.contains(at) {
                let i = choose|i: int| 0 <= i < r.len() && r[i] == at;
                assert(choice(r[i] as int));
            }
            if wide(at) {
                assert(choice(at as int));
                assert(r.contains(at));
            }
        } else {
            assert forall|p: usize, q: usize|
                #![trigger wide(p), wide(q)]
                p < q && q < ids.len() && wide(p) && wide(q) implies false by {
                assert(choice(p as int) && choice(q as int));
                assert(wider.contains(p) && wider.contains(q));
                let i = choose|i: int| 0 <= i < wider.len() && wider[i] == p;
                let j = choose|j: int| 0 <= j < wider.len() && wider[j] == q;
                assert(i != j);
            }
            if r.contains(at) {
                let i = choose|i: int| 0 <= i < r.len() && r[i] == at;
                assert(widest(r[i] as int));
            }
            if neighbors.contains(at) || at != anchor {
                assert(widest(at as int));
                assert(r.contains(at));
            }
        }
    }
}

/// Each two of the first eight candidates are paired, in their order, and no others.
pub proof fn each_two_of_eight_are_paired(candidates: Seq<usize>, n: int, x: usize, y: usize)
    requires
        0 <= n <= candidates.len(),
        n <= 8,
    ensures
        explore::candidate_pairs(candidates, n).contains((x, y)) <==> exists|i: int, j: int|
            0 <= i < n && i < j < candidates.len() && j < 8 && #[trigger] candidates[i] == x
                && #[trigger] candidates[j] == y,
        explore::tried_candidates(candidates) == if candidates.len() < 8 {
            candidates.len() as int
        } else {
            8
        },
    decreases n,
{
    let to = explore::tried_candidates(candidates);
    if n > 0 {
        each_two_of_eight_are_paired(candidates, n - 1, x, y);
        let before = explore::candidate_pairs(candidates, n - 1);
        let more = explore::pairs_with(candidates, n - 1, to);
        let all = explore::candidate_pairs(candidates, n);
        assert(all == before + more);
        if all.contains((x, y)) {
            let k = choose|k: int| 0 <= k < all.len() && all[k] == (x, y);
            if k < before.len() {
                assert(before[k] == (x, y));
            } else {
                let m = k - before.len();
                assert(more[m] == (x, y));
                assert(candidates[n - 1] == x && candidates[n + m] == y);
            }
        }
        if exists|i: int, j: int|
            0 <= i < n && i < j < candidates.len() && j < 8 && #[trigger] candidates[i] == x
                && #[trigger] candidates[j] == y {
            let (i, j) = choose|i: int, j: int|
                0 <= i < n && i < j < candidates.len() && j < 8 && #[trigger] candidates[i] == x
                    && #[trigger] candidates[j] == y;
            if i < n - 1 {
                assert(before.contains((x, y)));
                let k = choose|k: int| 0 <= k < before.len() && before[k] == (x, y);
                assert(all[k] == (x, y));
            } else {
                assert(more[j - n] == (x, y));
                assert(all[before.len() + (j - n)] == (x, y));
            }
        }
    }
}

/// The triads that can be asked for are those of each first image with each two of its first eight
/// candidates.
pub proof fn triads_are_first_images_with_pairs(
    anchors: Seq<usize>,
    lists: Seq<Seq<usize>>,
    n: int,
    triad: (usize, usize, usize),
)
    requires
        0 <= n <= anchors.len(),
        n <= lists.len(),
    ensures
        explore::all_triads(anchors, lists, n).contains(triad) <==> exists|a: int|
            0 <= a < n && #[trigger] anchors[a] == triad.0 && pairs_up(lists[a], triad.1, triad.2),
    decreases n,
{
    if n > 0 {
        triads_are_first_images_with_pairs(anchors, lists, n - 1, triad);
        let list = lists[n - 1];
        let to = explore::tried_candidates(list);
        let pairs = explore::candidate_pairs(list, to);
        each_two_of_eight_are_paired(list, to, triad.1, triad.2);
        let before = explore::all_triads(anchors, lists, n - 1);
        let more = explore::triads_with(anchors[n - 1], pairs);
        let all = explore::all_triads(anchors, lists, n);
        assert(all == before + more);
        if all.contains(triad) {
            let k = choose|k: int| 0 <= k < all.len() && all[k] == triad;
            if k < before.len() {
                assert(before[k] == triad);
            } else {
                let m = k - before.len();
                assert(more[m] == triad);
                assert(pairs[m] == (triad.1, triad.2));
                assert(anchors[n - 1] == triad.0);
                assert(pairs_up(list, triad.1, triad.2));
            }
        }
        if exists|a: int|
            0 <= a < n && #[trigger] anchors[a] == triad.0 && pairs_up(lists[a], triad.1, triad.2) {
            let a = choose|a: int|
                0 <= a < n && #[trigger] anchors[a] == triad.0 && pairs_up(lists[a], triad.1, triad.2);
            if a < n - 1 {
                assert(before.contains(triad));
                let k = choose|k: int| 0 <= k < before.len() && before[k] == triad;
                assert(all[k] == triad);
            } else {
                assert(pairs.contains((triad.1, triad.2)));
                let k = choose|k: int| 0 <= k < pairs.len() && pairs[k] == (triad.1, triad.2);
                assert(more[k] == triad);
                assert(all[before.len() + k] == triad);
            }
        }
    }
}

/// The second image stands behind the first in a list, both among its first eight.
pub open spec fn pairs_up(list: Seq<usize>, x: usize, y: usize) -> bool {
    exists|i: int, j: int|
        0 <= i < j < list.len() && j < 8 && #[trigger] list[i] == x && #[trigger] list[j] == y
}

/// Chance decides between the dozen triads with the highest scores: none that was left out has a higher
/// score than one that was not, and of equal ones the earlier are taken.
pub proof fn the_dozen_best_triads_are_drawn_from(
    shortlist: Seq<usize>,
    scores: Seq<Scalar>,
    inside: usize,
    outside: usize,
)
    requires
        rank::are_leaders(shortlist, explore::score_keys(scores), explore::EXPLORE_TRIAD_TOP_K as int),
        shortlist.contains(inside),
        !shortlist.contains(outside),
        outside < scores.len(),
    ensures
        inside < scores.len(),
        scores[inside as int].place() >= scores[outside as int].place(),
        scores[inside as int] == scores[outside as int] ==> inside < outside,
        shortlist.len() == 12,
        shortlist.no_duplicates(),
{
    let keys = explore::score_keys(scores);
    let limit: int = explore::EXPLORE_TRIAD_TOP_K as int;
    let all = choose|all: Seq<usize>| #[trigger]
        rank::is_ranking(all, keys) && shortlist == all.take(
            if limit < all.len() {
                limit
            } else {
                all.len() as int
            },
        );
    assert(all.contains(outside));
    let i = choose|i: int| 0 <= i < shortlist.len() && shortlist[i] == inside;
    let j = choose|j: int| 0 <= j < all.len() && all[j] == outside;
    assert(all[i] == inside);
    if j < shortlist.len() {
        assert(shortlist[j] == outside);
    }
    assert(rank::precedes(keys, all[i] as int, all[j] as int));
    order::leaders_are_not_outdone(shortlist, keys, limit, outside);
    let (x, y) = (keys[inside as int], keys[outside as int]);
    order::numbers_are_placed_by_size(scores[inside as int], scores[outside as int]);
    order::numbers_are_placed_by_size(scores[outside as int], scores[inside as int]);
    assert(x[0] == -scores[inside as int].place());
    assert(y[0] == -scores[outside as int].place());
    rank::lemma_lex_order(x, y, x);
    if x[0] != y[0] {
        order::keys_are_compared_from_the_front(x, y, 0);
    } else {
        assert(x =~= y);
    }
}

/// Where no score decides, three images are drawn from those not compared of late where they are three,
/// else from all.
pub proof fn drawn_triads_are_new_where_they_can_be(ids: Seq<AssetId>, recent: Seq<AssetTriad>, at: usize)
    requires
        ids.len() <= usize::MAX,
    ensures
        ({
            let all = Seq::new(ids.len(), |i: int| i as usize);
            let fresh = explore::unseen(ids, recent, all);
            &&& fresh.len() >= 3 ==> (explore::fallback_of(ids, recent).contains(at) <==> at < ids.len()
                && explore::recent_count_of(recent, ids[at as int]@) == 0)
            &&& fresh.len() < 3 ==> (explore::fallback_of(ids, recent).contains(at) <==> at < ids.len())
        }),
{
    let all = Seq::new(ids.len(), |i: int| i as usize);
    images_compared_lately_are_left_out(ids, recent, all, at);
    comparisons_are_counted(
        recent,
        AssetTriad { a: ids[0], b: ids[0], c: ids[0] },
        ids[at as int]@,
    );
    if at < ids.len() {
        assert(all[at as int] == at);
    }
}

/// What was computed for some images is used again for the same images in the same order.
pub proof fn the_same_images_in_the_same_order(a: Seq<AssetId>, b: Seq<AssetId>)
    ensures
        explore::same_ids(a, b) <==> a.map_values(|id: AssetId| id@) == b.map_values(|id: AssetId| id@),
{
    let (x, y) = (a.map_values(|id: AssetId| id@), b.map_values(|id: AssetId| id@));
    if explore::same_ids(a, b) {
        assert forall|i: int| 0 <= i < x.len() implies #[trigger] x[i] == y[i] by {
            assert(a[i]@ == b[i]@);
        }
        assert(x =~= y);
    }
    if x == y {
        assert(x.len() == a.len() && y.len() == b.len());
        assert forall|i: int| 0 <= i < a.len() implies (#[trigger] a[i])@ == b[i]@ by {
            assert(x[i] == y[i]);
        }
    }
}

/// Each place is drawn once.
pub proof fn shuffles_hold_every_place_once(places: Seq<usize>, n: int, at: usize)
    requires
        explore::is_shuffle(places, n),
        0 <= n,
    ensures
        places.len() == n,
        places.no_duplicates(),
        places.contains(at) ==> at < n,
{
    if places.contains(at) {
        let i = choose|i: int| 0 <= i < places.len() && places[i] == at;
        assert(places[i] < n);
    }
}

} // verus!
