//! Which faces are compared.
use crate::asset_domain::AssetDomainLabel;
use crate::facemash;
use crate::facemash::{FaceFacts, FacemashFace, FacemashIdentityArena, FacemashVoteError};
use crate::laws::{labels, order};
use crate::model::{FaceId, FaceIdentityId};
use crate::pool;
use crate::rank;
use crate::scalar::Scalar;
use vstd::prelude::*;

verus! {

/// The subject at `a` has the better claim by its score: the higher one, at equal scores the smaller
/// number, at equal numbers the earlier place.
pub open spec fn better_claim(scores: Seq<Scalar>, ids: Seq<FaceIdentityId>, a: int, b: int) -> bool {
    let (x, y) = (scores[a].place(), scores[b].place());
    x > y || (x == y && (ids[a].0 < ids[b].0 || (ids[a].0 == ids[b].0 && a < b)))
}

/// `n` other subjects that are asked for have a better claim than the one at `at`.
pub open spec fn outclaimed(
    scores: Seq<Scalar>,
    ids: Seq<FaceIdentityId>,
    asked: spec_fn(int) -> bool,
    at: int,
    n: int,
) -> bool {
    exists|rivals: Seq<usize>|
        {
            &&& #[trigger] rivals.len() == n
            &&& rivals.no_duplicates()
            &&& forall|i: int|
                0 <= i < rivals.len() ==> (#[trigger] rivals[i]) < ids.len() && asked(rivals[i] as int)
                    && better_claim(scores, ids, rivals[i] as int, at)
        }
}

proof fn lemma_claims_are_keys(
    scores: Seq<Scalar>,
    ids: Seq<FaceIdentityId>,
    pool: Seq<usize>,
    p: int,
    q: int,
)
    requires
        0 <= p < pool.len(),
        0 <= q < pool.len(),
        forall|i: int, j: int| 0 <= i < j < pool.len() ==> #[trigger] pool[i] < #[trigger] pool[j],
    ensures
        rank::precedes(facemash::falling_keys(scores, ids, pool), p, q) <==> better_claim(
            scores,
            ids,
            pool[p] as int,
            pool[q] as int,
        ),
{
    let (a, b) = (pool[p] as int, pool[q] as int);
    let (x, y) = (
        facemash::falling_key(scores[a], ids[a]),
        facemash::falling_key(scores[b], ids[b]),
    );
    let keys = facemash::falling_keys(scores, ids, pool);
    assert(keys[p] == x && keys[q] == y);
    order::numbers_are_placed_by_size(scores[a], scores[b]);
    order::numbers_are_placed_by_size(scores[b], scores[a]);
    assert(x[0] == 0 - scores[a].place() && y[0] == 0 - scores[b].place());
    assert(x[1] == ids[a].0 && y[1] == ids[b].0);
    if x[0] != y[0] {
        order::keys_are_compared_from_the_front(x, y, 0);
    } else if x[1] != y[1] {
        order::keys_are_compared_from_the_front(x, y, 1);
    } else {
        assert(x =~= y);
        rank::lemma_lex_order(x, y, x);
        if p < q {
            assert(pool[p] < pool[q]);
        } else if q < p {
            assert(pool[q] < pool[p]);
        }
    }
}

proof fn lemma_highest(
    highest: Seq<usize>,
    scores: Seq<Scalar>,
    ids: Seq<FaceIdentityId>,
    pool: Seq<usize>,
    asked: spec_fn(int) -> bool,
    limit: int,
    at: usize,
)
    requires
        facemash::are_highest(highest, scores, ids, pool, limit),
        pool::selects(pool, ids.len() as int, asked),
        0 <= limit,
        at < ids.len(),
        ids.len() <= usize::MAX,
    ensures
        highest.contains(at) <==> asked(at as int) && !outclaimed(scores, ids, asked, at as int, limit),
        highest.len() <= limit,
{
    let keys = facemash::falling_keys(scores, ids, pool);
    let leaders = choose|leaders: Seq<usize>| #[trigger]
        rank::are_leaders(leaders, keys, limit) && highest == leaders.map_values(
            |p: usize| pool[p as int],
        );
    lemma_pool_is_short(pool, ids.len() as int);
    if pool.len() > 0 {
        order::leaders_are_not_outdone(leaders, keys, limit, 0);
    } else {
        lemma_no_leaders(leaders, keys, limit);
    }
    if asked(at as int) {
        assert(pool.contains(at));
        let q = choose|q: int| 0 <= q < pool.len() && pool[q] == at;
        order::leaders_are_not_outdone(leaders, keys, limit, q as usize);
        assert(leaders.contains(q as usize) <==> highest.contains(at)) by {
            if leaders.contains(q as usize) {
                let i = choose|i: int| 0 <= i < leaders.len() && leaders[i] == q as usize;
                assert(highest[i] == at);
            }
            if highest.contains(at) {
                let i = choose|i: int| 0 <= i < highest.len() && highest[i] == at;
                lemma_leader_in_range(leaders, keys, limit, i);
                let p = leaders[i] as int;
                assert(pool[p] == at);
                if p < q {
                    assert(pool[p] < pool[q]);
                } else if q < p {
                    assert(pool[q] < pool[p]);
                }
            }
        }
        if order::outdone(keys, q, limit) {
            let rivals = choose|rivals: Seq<usize>|
                {
                    &&& #[trigger] rivals.len() == limit
                    &&& rivals.no_duplicates()
                    &&& forall|i: int|
                        0 <= i < rivals.len() ==> (#[trigger] rivals[i]) < keys.len() && rank::precedes(
                            keys,
                            rivals[i] as int,
                            q,
                        )
                };
            let places = rivals.map_values(|p: usize| pool[p as int]);
            assert forall|i: int, j: int|
                0 <= i < places.len() && 0 <= j < places.len() && i != j implies places[i] != places[j] by {
                assert(rivals[i] != rivals[j]);
                assert(rivals[i] < keys.len() && rivals[j] < keys.len());
                if rivals[i] < rivals[j] {
                    assert(pool[rivals[i] as int] < pool[rivals[j] as int]);
                } else {
                    assert(pool[rivals[j] as int] < pool[rivals[i] as int]);
                }
            }
            assert forall|i: int| 0 <= i < places.len() implies (#[trigger] places[i]) < ids.len()
                && asked(places[i] as int) && better_claim(scores, ids, places[i] as int, at as int) by {
                assert(rivals[i] < keys.len());
                lemma_claims_are_keys(scores, ids, pool, rivals[i] as int, q);
                assert(pool[rivals[i] as int] < ids.len());
            }
            assert(places.len() == limit);
            assert(outclaimed(scores, ids, asked, at as int, limit));
        }
        if outclaimed(scores, ids, asked, at as int, limit) {
            let rivals = choose|rivals: Seq<usize>|
                {
                    &&& #[trigger] rivals.len() == limit
                    &&& rivals.no_duplicates()
                    &&& forall|i: int|
                        0 <= i < rivals.len() ==> (#[trigger] rivals[i]) < ids.len() && asked(
                            rivals[i] as int,
                        ) && better_claim(scores, ids, rivals[i] as int, at as int)
                };
            let places = rivals.map_values(|k: usize| place_in(pool, k));
            assert forall|i: int| 0 <= i < rivals.len() implies 0 <= (#[trigger] places[i]) < pool.len()
                && pool[places[i] as int] == rivals[i] by {
                assert(rivals[i] < ids.len() && asked(rivals[i] as int));
                assert(pool.contains(rivals[i]));
                lemma_place_in(pool, rivals[i]);
            }
            assert forall|i: int, j: int|
                0 <= i < places.len() && 0 <= j < places.len() && i != j implies places[i] != places[j] by {
                assert(rivals[i] != rivals[j]);
                assert(pool[places[i] as int] == rivals[i] && pool[places[j] as int] == rivals[j]);
            }
            assert forall|i: int| 0 <= i < places.len() implies (#[trigger] places[i]) < keys.len()
                && rank::precedes(keys, places[i] as int, q) by {
                lemma_claims_are_keys(scores, ids, pool, places[i] as int, q);
                assert(pool[places[i] as int] == rivals[i]);
                assert(better_claim(scores, ids, rivals[i] as int, at as int));
            }
            assert(places.len() == limit);
            assert(order::outdone(keys, q, limit));
        }
    } else if highest.contains(at) {
        let i = choose|i: int| 0 <= i < highest.len() && highest[i] == at;
        lemma_leader_in_range(leaders, keys, limit, i);
        assert(pool[leaders[i] as int] == at);
    }
}

/// The place of an item in a list.
spec fn place_in(pool: Seq<usize>, k: usize) -> usize {
    (choose|p: int| 0 <= p < pool.len() && p <= usize::MAX && #[trigger] pool[p] == k) as usize
}

proof fn lemma_place_in(pool: Seq<usize>, k: usize)
    requires
        pool.contains(k),
        pool.len() <= usize::MAX,
    ensures
        place_in(pool, k) < pool.len(),
        pool[place_in(pool, k) as int] == k,
{
    let p = choose|p: int| 0 <= p < pool.len() && pool[p] == k;
    assert(0 <= p < pool.len() && p <= usize::MAX && pool[p] == k);
}

proof fn lemma_pool_is_short(pool: Seq<usize>, n: int)
    requires
        forall|i: int, j: int| 0 <= i < j < pool.len() ==> #[trigger] pool[i] < #[trigger] pool[j],
        forall|i: int| 0 <= i < pool.len() ==> (#[trigger] pool[i]) < n,
    ensures
        pool.len() <= n || pool.len() == 0,
    decreases pool.len(),
{
    if pool.len() > 0 {
        let fewer = pool.drop_last();
        let last = pool[pool.len() - 1] as int;
        assert forall|i: int| 0 <= i < fewer.len() implies (#[trigger] fewer[i]) < last by {
            assert(pool[i] < pool[pool.len() - 1]);
        }
        assert forall|i: int, j: int| 0 <= i < j < fewer.len() implies #[trigger] fewer[i]
            < #[trigger] fewer[j] by {
            assert(pool[i] < pool[j]);
        }
        lemma_pool_is_short(fewer, last);
        assert(pool[pool.len() - 1] < n);
    }
}

proof fn lemma_leader_in_range(leaders: Seq<usize>, keys: Seq<Seq<i128>>, limit: int, i: int)
    requires
        rank::are_leaders(leaders, keys, limit),
        0 <= limit,
        0 <= i < leaders.len(),
    ensures
        leaders[i] < keys.len(),
{
    let order = choose|order: Seq<usize>| #[trigger]
        rank::is_ranking(order, keys) && leaders == order.take(
            if limit < order.len() {
                limit
            } else {
                order.len() as int
            },
        );
    assert(order[i] < keys.len());
}

proof fn lemma_no_leaders(leaders: Seq<usize>, keys: Seq<Seq<i128>>, limit: int)
    requires
        rank::are_leaders(leaders, keys, limit),
        0 <= limit,
        keys.len() == 0,
    ensures
        leaders.len() == 0,
{
}

/// A subject is on the shortlist exactly where fewer than thirty-two others have a better claim by what
/// a comparison would tell, or where it may be taken because little is known of it and fewer than
/// twenty-four others that may be have a better claim to that. Once predictions guide the choice, it may
/// be so taken where its share from the bottom is a number of at least 0.3, else always.
pub proof fn the_shortlist_takes_the_best_claims(
    shortlist: Seq<usize>,
    ids: Seq<FaceIdentityId>,
    frontier: Seq<Scalar>,
    coverage: Seq<Scalar>,
    topness: Seq<Scalar>,
    guided: bool,
    at: usize,
)
    requires
        facemash::is_shortlist(shortlist, ids, frontier, coverage, topness, guided),
        ids.len() <= usize::MAX,
        at < ids.len(),
    ensures
        ({
            let floor = Scalar { bits: 0x3e99_999a };
            let known_enough = |i: int| !guided || (!topness[i].nan() && topness[i].order() >= floor.order());
            shortlist.contains(at) <==> !outclaimed(frontier, ids, |i: int| true, at as int, 32) || (
            known_enough(at as int) && !outclaimed(coverage, ids, known_enough, at as int, 24))
        }),
{
    let floor = Scalar { bits: 0x3e99_999a };
    let known_enough = |i: int| !guided || (!topness[i].nan() && topness[i].order() >= floor.order());
    let every = |i: int| true;
    let covers = |i: int| facemash::covers(guided, topness[i]);
    let (all, telling, eligible, covering) = choose|
        all: Seq<usize>,
        telling: Seq<usize>,
        eligible: Seq<usize>,
        covering: Seq<usize>,
    |
        {
            &&& pool::selects(all, ids.len() as int, |i: int| true)
            &&& #[trigger] facemash::are_highest(
                telling,
                frontier,
                ids,
                all,
                facemash::FACEMASH_FRONTIER_SHORTLIST as int,
            )
            &&& pool::selects(
                eligible,
                ids.len() as int,
                |i: int| facemash::covers(guided, topness[i]),
            )
            &&& #[trigger] facemash::are_highest(
                covering,
                coverage,
                ids,
                eligible,
                facemash::FACEMASH_COVERAGE_SHORTLIST as int,
            )
            &&& pool::selects(
                shortlist,
                ids.len() as int,
                |i: int| telling.contains(i as usize) || covering.contains(i as usize),
            )
        };
    assert(covers =~= known_enough);
    assert(pool::selects(eligible, ids.len() as int, known_enough)) by {
        assert(pool::selects(eligible, ids.len() as int, covers));
    }
    assert(pool::selects(all, ids.len() as int, every));
    lemma_highest(telling, frontier, ids, all, every, 32, at);
    lemma_highest(covering, coverage, ids, eligible, known_enough, 24, at);
    let taken = |i: int| telling.contains(i as usize) || covering.contains(i as usize);
    assert(pool::selects(shortlist, ids.len() as int, taken));
    if taken(at as int) {
        assert(shortlist.contains(at));
    }
    if shortlist.contains(at) {
        let p = choose|p: int| 0 <= p < shortlist.len() && shortlist[p] == at;
        assert(taken(shortlist[p] as int));
    }
}

/// The share of the subject from the bottom is a number of at least 0.3, and no other such subject has a
/// higher score for how little is known of it, nor with the same score a smaller number or, with the
/// same number, an earlier place.
pub open spec fn least_known(
    coverage: Seq<Scalar>,
    topness: Seq<Scalar>,
    ids: Seq<FaceIdentityId>,
    at: int,
) -> bool {
    let floor = Scalar { bits: 0x3e99_999a };
    &&& topness[at].reaches(floor)
    &&& forall|i: int|
        0 <= i < ids.len() && topness[i].reaches(floor) ==> !#[trigger] better_claim(coverage, ids, i, at)
}

/// Once predictions guide the choice, the subject of which least is known is on the shortlist, if its
/// share from the bottom is a number of at least 0.3.
pub proof fn the_least_known_subject_is_on_the_shortlist(
    shortlist: Seq<usize>,
    ids: Seq<FaceIdentityId>,
    frontier: Seq<Scalar>,
    coverage: Seq<Scalar>,
    topness: Seq<Scalar>,
    at: usize,
)
    requires
        facemash::is_shortlist(shortlist, ids, frontier, coverage, topness, true),
        ids.len() <= usize::MAX,
        at < ids.len(),
        least_known(coverage, topness, ids, at as int),
    ensures
        shortlist.contains(at),
{
    the_shortlist_takes_the_best_claims(shortlist, ids, frontier, coverage, topness, true, at);
    let floor = Scalar { bits: 0x3e99_999a };
    let known_enough = |i: int| !true || (!topness[i].nan() && topness[i].order() >= floor.order());
    if outclaimed(coverage, ids, known_enough, at as int, 24) {
        let rivals = choose|rivals: Seq<usize>|
            {
                &&& #[trigger] rivals.len() == 24
                &&& rivals.no_duplicates()
                &&& forall|i: int|
                    0 <= i < rivals.len() ==> (#[trigger] rivals[i]) < ids.len() && known_enough(
                        rivals[i] as int,
                    ) && better_claim(coverage, ids, rivals[i] as int, at as int)
            };
        assert(known_enough(rivals[0] as int));
        assert(better_claim(coverage, ids, rivals[0] as int, at as int));
        assert(false);
    }
}

/// Two comparisons are of the same pair exactly where they are of the same two subjects.
pub proof fn pairs_are_known_by_their_subjects(
    a: FaceIdentityId,
    b: FaceIdentityId,
    c: FaceIdentityId,
    d: FaceIdentityId,
)
    ensures
        facemash::pair_key(a, b) == facemash::pair_key(c, d) <==> (a == c && b == d) || (a == d && b == c),
        facemash::pair_key(a, b).left.0 <= facemash::pair_key(a, b).right.0,
        facemash::pair_key(a, b).left == a || facemash::pair_key(a, b).left == b,
{
}

/// Of the faces of a subject those stay that are in images of the collection, in their order.
pub proof fn faces_outside_the_collection_are_left_out(faces: Seq<FacemashFace>) -> (places: Seq<int>)
    ensures
        places.len() == facemash::local_faces(faces).len(),
        forall|i: int|
            0 <= i < places.len() ==> 0 <= #[trigger] places[i] < faces.len() && faces[places[i]].is_local
                && facemash::local_faces(faces)[i] == faces[places[i]],
        forall|i: int, j: int| 0 <= i < j < places.len() ==> #[trigger] places[i] < #[trigger] places[j],
        forall|k: int| 0 <= k < faces.len() && (#[trigger] faces[k]).is_local ==> places.contains(k),
    decreases faces.len(),
{
    reveal(Seq::filter);
    if faces.len() == 0 {
        Seq::empty()
    } else {
        let before = faces.drop_last();
        let earlier = faces_outside_the_collection_are_left_out(before);
        assert(facemash::local_faces(faces) == if faces.last().is_local {
            facemash::local_faces(before).push(faces.last())
        } else {
            facemash::local_faces(before)
        });
        if faces.last().is_local {
            let places = earlier.push(faces.len() - 1);
            assert forall|k: int| 0 <= k < faces.len() && (#[trigger] faces[k]).is_local implies places.contains(
                k,
            ) by {
                if k < faces.len() - 1 {
                    assert(before[k].is_local);
                    let i = choose|i: int| 0 <= i < earlier.len() && earlier[i] == k;
                    assert(places[i] == k);
                } else {
                    assert(places[earlier.len() as int] == k);
                }
            }
            places
        } else {
            assert forall|k: int| 0 <= k < faces.len() && (#[trigger] faces[k]).is_local implies earlier.contains(
                k,
            ) by {
                assert(before[k].is_local);
            }
            earlier
        }
    }
}

/// The subjects that can be compared are those with a face in an image of the collection, in their
/// order, with just those faces.
pub proof fn subjects_are_compared_by_their_local_faces(
    viable: Seq<FacemashIdentityArena>,
    candidates: Seq<FacemashIdentityArena>,
) -> (places: Seq<int>)
    requires
        facemash::are_viable(viable, candidates),
    ensures
        places.len() == viable.len(),
        forall|i: int|
            0 <= i < places.len() ==> {
                &&& 0 <= #[trigger] places[i] < candidates.len()
                &&& viable[i].identity_id == candidates[places[i]].identity_id
                &&& viable[i].faces@ == facemash::local_faces(candidates[places[i]].faces@)
                &&& viable[i].faces@.len() > 0
            },
        forall|i: int, j: int| 0 <= i < j < places.len() ==> #[trigger] places[i] < #[trigger] places[j],
        forall|k: int, f: int|
            #![trigger candidates[k].faces@[f]]
            0 <= k < candidates.len() && 0 <= f < candidates[k].faces@.len()
                && candidates[k].faces@[f].is_local ==> places.contains(k),
    decreases candidates.len(),
{
    if candidates.len() == 0 {
        Seq::empty()
    } else {
        let last = candidates.last();
        let before = candidates.drop_last();
        let locals = faces_outside_the_collection_are_left_out(last.faces@);
        if facemash::local_faces(last.faces@).len() == 0 {
            let earlier = subjects_are_compared_by_their_local_faces(viable, before);
            assert forall|k: int, f: int|
                #![trigger candidates[k].faces@[f]]
                0 <= k < candidates.len() && 0 <= f < candidates[k].faces@.len()
                    && candidates[k].faces@[f].is_local implies earlier.contains(k) by {
                if k < before.len() {
                    assert(before[k].faces@[f].is_local);
                } else {
                    assert(last.faces@[f].is_local);
                    assert(locals.contains(f));
                }
            }
            earlier
        } else {
            let earlier = subjects_are_compared_by_their_local_faces(viable.drop_last(), before);
            let places = earlier.push(candidates.len() - 1);
            assert forall|i: int| 0 <= i < places.len() implies {
                &&& 0 <= #[trigger] places[i] < candidates.len()
                &&& viable[i].identity_id == candidates[places[i]].identity_id
                &&& viable[i].faces@ == facemash::local_faces(candidates[places[i]].faces@)
                &&& viable[i].faces@.len() > 0
            } by {
                if i < earlier.len() {
                    assert(0 <= earlier[i] < before.len());
                    assert(viable.drop_last()[i] == viable[i]);
                    assert(before[earlier[i]] == candidates[places[i]]);
                }
            }
            assert forall|k: int, f: int|
                #![trigger candidates[k].faces@[f]]
                0 <= k < candidates.len() && 0 <= f < candidates[k].faces@.len()
                    && candidates[k].faces@[f].is_local implies places.contains(k) by {
                if k < before.len() {
                    assert(before[k].faces@[f].is_local);
                    let i = choose|i: int| 0 <= i < earlier.len() && earlier[i] == k;
                    assert(places[i] == k);
                } else {
                    assert(places[earlier.len() as int] == k);
                }
            }
            places
        }
    }
}

/// A subject is paired by the label of its first face that has one, and by none where no face has.
pub proof fn subjects_are_labelled_by_their_first_labelled_face(faces: Seq<FacemashFace>, at: int)
    ensures
        0 <= at < faces.len() && faces[at].domain is Some && (forall|i: int|
            0 <= i < at ==> (#[trigger] faces[i]).domain is None) ==> facemash::first_domain(faces)
            == faces[at].domain,
        (forall|i: int| 0 <= i < faces.len() ==> (#[trigger] faces[i]).domain is None)
            ==> facemash::first_domain(faces) is None,
    decreases faces.len(),
{
    if faces.len() > 0 {
        let rest = faces.skip(1);
        subjects_are_labelled_by_their_first_labelled_face(rest, at - 1);
        if 0 <= at < faces.len() && faces[at].domain is Some && (forall|i: int|
            0 <= i < at ==> (#[trigger] faces[i]).domain is None) {
            assert forall|i: int| 0 <= i < at - 1 implies (#[trigger] rest[i]).domain is None by {
                assert(faces[i + 1].domain is None);
            }
            if at > 0 {
                assert(faces[0].domain is None);
                assert(rest[at - 1] == faces[at]);
            }
        }
        if forall|i: int| 0 <= i < faces.len() ==> (#[trigger] faces[i]).domain is None {
            assert(faces[0].domain is None);
            assert forall|i: int| 0 <= i < rest.len() implies (#[trigger] rest[i]).domain is None by {
                assert(faces[i + 1].domain is None);
            }
        }
    }
}

/// A face that was not shown of late is fresher than any that was, and of two that were the one
/// with fewer others behind it.
pub proof fn faces_grow_stale_as_others_are_shown(recent: Seq<FaceId>, face: FaceId, at: int)
    ensures
        !recent.contains(face) ==> facemash::freshness(recent, face) == 1,
        0 <= at < recent.len() && recent[at] == face && (forall|i: int|
            at < i < recent.len() ==> #[trigger] recent[i] != face) ==> facemash::freshness(recent, face)
            == at + 1 - recent.len(),
    decreases recent.len(),
{
    if recent.len() > 0 {
        let before = recent.drop_last();
        faces_grow_stale_as_others_are_shown(before, face, at);
        if !recent.contains(face) {
            assert(recent[recent.len() - 1] != face);
            if before.contains(face) {
                let i = choose|i: int| 0 <= i < before.len() && before[i] == face;
                assert(recent[i] == face);
            }
        }
        if 0 <= at < recent.len() && recent[at] == face && (forall|i: int|
            at < i < recent.len() ==> #[trigger] recent[i] != face) {
            if at < recent.len() - 1 {
                assert(recent[recent.len() - 1] != face);
                assert(before[at] == face);
                assert forall|i: int| at < i < before.len() implies #[trigger] before[i] != face by {
                    assert(recent[i] != face);
                }
            }
        }
    }
}

/// A face is preferred to another: it is fresher, at equal freshness it was found more surely, and
/// then it is the newer one.
pub open spec fn preferred(recent: Seq<FaceId>, a: FacemashFace, b: FacemashFace) -> bool {
    let (x, y) = (facemash::freshness(recent, a.id), facemash::freshness(recent, b.id));
    let (p, q) = (a.confidence.place(), b.confidence.place());
    x > y || (x == y && (p > q || (p == q && a.id.0 > b.id.0)))
}

proof fn lemma_freshness_bounded(recent: Seq<FaceId>, face: FaceId)
    ensures
        -recent.len() <= facemash::freshness(recent, face) <= 1,
    decreases recent.len(),
{
    if recent.len() > 0 {
        lemma_freshness_bounded(recent.drop_last(), face);
    }
}

/// The face that stands for a subject is one of its faces, and none of them is preferred to it.
pub proof fn no_face_is_preferred_to_the_one_that_stands_for_its_subject(
    face: FacemashFace,
    arena: FacemashIdentityArena,
    recent: Seq<FaceId>,
    other: int,
)
    requires
        facemash::stands_for(face, arena, recent),
        recent.len() <= usize::MAX,
        0 <= other < arena.faces@.len(),
    ensures
        arena.faces@.contains(face),
        !preferred(recent, arena.faces@[other], face),
{
    let at = choose|at: int|
        0 <= at < arena.faces@.len() && arena.faces@[at] == face && #[trigger] rank::is_last_maximum(
            at,
            facemash::face_keys(recent, arena.faces@),
        );
    let keys = facemash::face_keys(recent, arena.faces@);
    let rival = arena.faces@[other];
    let (x, y) = (facemash::face_key(recent, face), facemash::face_key(recent, rival));
    assert(keys[at] == x && keys[other] == y);
    lemma_freshness_bounded(recent, face.id);
    lemma_freshness_bounded(recent, rival.id);
    order::numbers_are_placed_by_size(face.confidence, rival.confidence);
    order::numbers_are_placed_by_size(rival.confidence, face.confidence);
    assert(x[0] == facemash::freshness(recent, face.id) && y[0] == facemash::freshness(recent, rival.id));
    assert(x[1] == face.confidence.place() && y[1] == rival.confidence.place());
    assert(x[2] == face.id.0 && y[2] == rival.id.0);
    if x[0] != y[0] {
        order::keys_are_compared_from_the_front(x, y, 0);
    } else if x[1] != y[1] {
        order::keys_are_compared_from_the_front(x, y, 1);
    } else if x[2] != y[2] {
        order::keys_are_compared_from_the_front(x, y, 2);
    }
}

proof fn lemma_count_true(flags: Seq<bool>)
    ensures
        facemash::count_true(flags) == flags.filter(|flag: bool| flag).len(),
    decreases flags.len(),
{
    reveal(Seq::filter);
    if flags.len() > 0 {
        lemma_count_true(flags.drop_last());
    }
}

/// Predictions guide the choice where there are subjects and at least half of them have one.
pub proof fn half_of_the_predictions_guide(has_model: Seq<bool>)
    ensures
        facemash::mostly_predicted(has_model) <==> has_model.len() > 0 && 2 * has_model.filter(
            |flag: bool| flag,
        ).len() >= has_model.len(),
{
    lemma_count_true(has_model);
    if has_model.len() == 0 {
        reveal(Seq::filter);
    }
}

/// Of two subjects the one of which more is thought has the higher rank; where the same is thought
/// of both, the one with the larger number has.
pub proof fn ranks_rise_with_what_is_thought(
    ranks: Seq<usize>,
    signals: Seq<Scalar>,
    ids: Seq<FaceIdentityId>,
    order_of: Seq<usize>,
    a: usize,
    b: usize,
)
    requires
        rank::is_ranking(order_of, facemash::rising_keys(signals, ids)),
        forall|k: int| 0 <= k < order_of.len() ==> ranks[#[trigger] order_of[k] as int] == k,
        a < ids.len(),
        b < ids.len(),
        signals[a as int].place() < signals[b as int].place() || (signals[a as int] == signals[b as int]
            && ids[a as int].0 < ids[b as int].0),
    ensures
        ranks[a as int] < ranks[b as int],
        ranks[b as int] < ids.len(),
{
    let keys = facemash::rising_keys(signals, ids);
    assert(order_of.contains(a) && order_of.contains(b));
    let i = choose|i: int| 0 <= i < order_of.len() && order_of[i] == a;
    let j = choose|j: int| 0 <= j < order_of.len() && order_of[j] == b;
    let (x, y) = (
        facemash::rising_key(signals[a as int], ids[a as int]),
        facemash::rising_key(signals[b as int], ids[b as int]),
    );
    assert(keys[a as int] == x && keys[b as int] == y);
    order::numbers_are_placed_by_size(signals[a as int], signals[b as int]);
    order::numbers_are_placed_by_size(signals[b as int], signals[a as int]);
    if x[0] != y[0] {
        order::keys_are_compared_from_the_front(x, y, 0);
    } else {
        order::keys_are_compared_from_the_front(x, y, 1);
    }
    rank::lemma_lex_order(x, y, x);
    if j <= i {
        if j < i {
            assert(rank::precedes(keys, order_of[j] as int, order_of[i] as int));
        }
        assert(false);
    }
    assert(ranks[order_of[i] as int] == i && ranks[order_of[j] as int] == j);
}

/// Two subjects of the shortlist are paired, once and in their order, exactly where not one is
/// labelled a photograph and the other a drawing.
pub proof fn subjects_are_paired_unless_their_labels_differ(
    pairs: Seq<(usize, usize)>,
    shortlist: Seq<usize>,
    domains: Seq<Option<AssetDomainLabel>>,
    a: usize,
    b: usize,
)
    requires
        facemash::are_pairings(pairs, shortlist, domains),
    ensures
        pairs.contains((a, b)) <==> a < b && shortlist.contains(a) && shortlist.contains(b) && !(
        domains[a as int] == Some(AssetDomainLabel::Real) && domains[b as int] == Some(
            AssetDomainLabel::Anime,
        )) && !(domains[a as int] == Some(AssetDomainLabel::Anime) && domains[b as int] == Some(
            AssetDomainLabel::Real,
        )),
        pairs.no_duplicates(),
        forall|k: int, m: int|
            0 <= k < m < pairs.len() ==> {
                let (p, q) = (#[trigger] pairs[k], #[trigger] pairs[m]);
                p.0 < q.0 || (p.0 == q.0 && p.1 < q.1)
            },
{
    labels::photographs_do_not_meet_drawings(domains[a as int], domains[b as int]);
    assert forall|k: int, m: int| 0 <= k < pairs.len() && 0 <= m < pairs.len() && k != m implies pairs[k]
        != pairs[m] by {
        if k < m {
            assert(facemash::before_pair(pairs[k], pairs[m]));
        } else {
            assert(facemash::before_pair(pairs[m], pairs[k]));
        }
    }
    assert forall|k: int, m: int| 0 <= k < m < pairs.len() implies {
        let (p, q) = (#[trigger] pairs[k], #[trigger] pairs[m]);
        p.0 < q.0 || (p.0 == q.0 && p.1 < q.1)
    } by {
        assert(facemash::before_pair(pairs[k], pairs[m]));
    }
    if pairs.contains((a, b)) {
        let k = choose|k: int| 0 <= k < pairs.len() && pairs[k] == (a, b);
        assert(shortlist.contains(pairs[k].0));
    }
}

/// The best pair is one of those that are scored, and of numbers no score before it is as large, and
/// none behind it is larger.
pub proof fn the_best_score_is_not_beaten(scores: Seq<Scalar>, other: int)
    requires
        0 <= other < scores.len(),
        forall|i: int| 0 <= i < scores.len() ==> !(#[trigger] scores[i]).nan(),
    ensures
        0 <= facemash::best_of(scores) < scores.len(),
        !scores[facemash::best_of(scores)].below(scores[other]),
        other < facemash::best_of(scores) ==> scores[other].below(scores[facemash::best_of(scores)]),
{
    facemash::best_is_the_first_of_the_largest(scores);
}

/// A face can be compared where the detector in use found it in an image of the collection that can
/// be shown, large and surely enough.
pub proof fn faces_are_compared_where_all_is_well(face: FaceFacts)
    ensures
        facemash::comparable(face) <==> face.current_detector && face.is_local && face.usable
            && face.live,
{
}

/// A comparison is recorded where the pair can be compared and the detector in use found both faces;
/// nothing is recorded, and nothing complained about, where it cannot be compared.
pub proof fn comparisons_are_recorded_or_refused(
    live: bool,
    winner: FaceId,
    winner_current: Option<bool>,
    loser: FaceId,
    loser_current: Option<bool>,
)
    ensures
        ({
            let r = facemash::spec_facemash_vote(live, winner, winner_current, loser, loser_current);
            &&& r == Ok::<bool, FacemashVoteError>(false) <==> !live
            &&& r == Ok::<bool, FacemashVoteError>(true) <==> live && winner_current == Some(true)
                && loser_current == Some(true)
            &&& live && winner_current is None ==> r == Err::<bool, FacemashVoteError>(
                FacemashVoteError::MissingFace { face_id: winner },
            )
            &&& live && winner_current is Some && loser_current is None ==> r == Err::<
                bool,
                FacemashVoteError,
            >(FacemashVoteError::MissingFace { face_id: loser })
            &&& live && winner_current is Some && loser_current is Some && (winner_current == Some(false)
                || loser_current == Some(false)) ==> r == Err::<bool, FacemashVoteError>(
                FacemashVoteError::StaleDetector,
            )
        }),
{
}

} // verus!
