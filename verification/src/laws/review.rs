//! Which subjects may be the same person.
use crate::config;
use crate::identities;
use crate::identities::{
    FaceGroup, FoundNeighbor, IdentityReviewEdge, IdentityReviewRowView, ReviewSubject,
};
use crate::laws::order;
use crate::model::{FaceId, FaceIdentityId};
use crate::pool;
use crate::rank;
use crate::scalar::Scalar;
use vstd::prelude::*;

verus! {

/// Two subjects are the same two whichever is named first.
pub proof fn pairs_of_subjects_have_no_sides(
    a: FaceIdentityId,
    b: FaceIdentityId,
    c: FaceIdentityId,
    d: FaceIdentityId,
)
    ensures
        identities::canonical(a, b) == identities::canonical(c, d) <==> (a == c && b == d) || (a == d && b
            == c),
        identities::canonical(a, b) == (a, b) || identities::canonical(a, b) == (b, a),
        identities::canonical(a, b).0.0 <= identities::canonical(a, b).1.0,
{
}

/// No face is more like its subject than the one that stands for it, and none that is equally alike is
/// newer.
pub proof fn the_likest_face_stands_for_its_subject(faces: Seq<(Scalar, FaceId)>, at: int, other: int)
    requires
        rank::is_last_maximum(at, identities::likeness_keys(faces)),
        0 <= other < faces.len(),
    ensures
        0 <= at < faces.len(),
        !faces[at].0.below(faces[other].0),
        faces[other].0 == faces[at].0 ==> faces[other].1.0 <= faces[at].1.0,
{
    let keys = identities::likeness_keys(faces);
    let (a, b) = (faces[at], faces[other]);
    let (x, y) = (identities::likeness_key(a), identities::likeness_key(b));
    assert(keys[at] == x && keys[other] == y);
    order::numbers_are_placed_by_size(a.0, b.0);
    order::numbers_are_placed_by_size(b.0, a.0);
    assert(x[0] == a.0.place() && y[0] == b.0.place());
    assert(x[1] == a.1.0 && y[1] == b.1.0);
    if x[0] != y[0] {
        order::keys_are_compared_from_the_front(x, y, 0);
    } else if x[1] != y[1] {
        order::keys_are_compared_from_the_front(x, y, 1);
    }
}

/// A subject is found at its first place, or behind the last subject where it is not there.
pub proof fn subjects_are_found_at_their_first_place(
    subjects: Seq<ReviewSubject>,
    id: FaceIdentityId,
    at: int,
)
    requires
        0 <= at <= subjects.len(),
        at < subjects.len() ==> subjects[at].identity_id == id,
        forall|i: int| 0 <= i < at ==> (#[trigger] subjects[i]).identity_id != id,
    ensures
        identities::subject_position(subjects, id) == at,
    decreases at,
{
    if at > 0 {
        assert(subjects[0].identity_id != id);
        let rest = subjects.skip(1);
        assert forall|i: int| 0 <= i < at - 1 implies (#[trigger] rest[i]).identity_id != id by {
            assert(subjects[i + 1].identity_id != id);
        }
        subjects_are_found_at_their_first_place(rest, id, at - 1);
    }
}

proof fn lemma_subject_position(subjects: Seq<ReviewSubject>, id: FaceIdentityId)
    ensures
        0 <= identities::subject_position(subjects, id) <= subjects.len(),
        identities::subject_position(subjects, id) < subjects.len() ==> subjects[identities::subject_position(
            subjects,
            id,
        )].identity_id == id,
        forall|i: int|
            0 <= i < identities::subject_position(subjects, id) ==> (#[trigger] subjects[i]).identity_id
                != id,
    decreases subjects.len(),
{
    if subjects.len() > 0 && subjects[0].identity_id != id {
        lemma_subject_position(subjects.skip(1), id);
        assert forall|i: int| 0 <= i < identities::subject_position(subjects, id) implies (
        #[trigger] subjects[i]).identity_id != id by {
            if i > 0 {
                assert(subjects.skip(1)[i - 1].identity_id != id);
            }
        }
    }
}

/// A named subject is found by its slug at its first place, or behind the last subject where no name
/// has that slug.
pub proof fn names_are_found_at_their_first_place(
    subjects: Seq<ReviewSubject>,
    slug: Seq<char>,
    at: int,
)
    requires
        0 <= at <= subjects.len(),
        at < subjects.len() ==> has_slug(subjects[at], slug),
        forall|i: int| 0 <= i < at ==> !has_slug(#[trigger] subjects[i], slug),
    ensures
        identities::slug_position(subjects, slug) == at,
    decreases at,
{
    if at > 0 {
        assert(!has_slug(subjects[0], slug));
        let rest = subjects.skip(1);
        assert forall|i: int| 0 <= i < at - 1 implies !has_slug(#[trigger] rest[i], slug) by {
            assert(!has_slug(subjects[i + 1], slug));
        }
        names_are_found_at_their_first_place(rest, slug, at - 1);
    }
}

/// The subject has a name that the slug stands for.
pub open spec fn has_slug(subject: ReviewSubject, slug: Seq<char>) -> bool {
    match subject.name {
        None => false,
        Some(name) => identities::subject_slug(name@) == slug,
    }
}

/// What was found is offered as a candidate for `anchor`, as the subject at `at`: a nameless other
/// subject, never said to differ from the anchor, and not less alike than the threshold.
pub open spec fn offered(
    subjects: Seq<ReviewSubject>,
    anchor: FaceIdentityId,
    found: FoundNeighbor,
    vetoes: Seq<(FaceIdentityId, FaceIdentityId)>,
    threshold: Scalar,
    at: int,
) -> bool {
    &&& 0 <= at < subjects.len()
    &&& subjects[at].identity_id == found.candidate_id
    &&& forall|i: int| 0 <= i < at ==> (#[trigger] subjects[i]).identity_id != found.candidate_id
    &&& subjects[at].name is None
    &&& found.candidate_id.0 != anchor.0
    &&& forall|i: int|
        0 <= i < vetoes.len() ==> #[trigger] vetoes[i] != if anchor.0 <= found.candidate_id.0 {
            (anchor, found.candidate_id)
        } else {
            (found.candidate_id, anchor)
        }
    &&& !found.similarity.below(threshold)
}

proof fn lemma_offered(
    subjects: Seq<ReviewSubject>,
    anchor: FaceIdentityId,
    found: FoundNeighbor,
    vetoes: Seq<(FaceIdentityId, FaceIdentityId)>,
    threshold: Scalar,
    at: int,
)
    ensures
        offered(subjects, anchor, found, vetoes, threshold, at) <==> identities::is_candidate(
            subjects,
            anchor,
            found,
            vetoes,
            threshold,
        ) && at == identities::subject_position(subjects, found.candidate_id),
{
    lemma_subject_position(subjects, found.candidate_id);
    if 0 <= at < subjects.len() && subjects[at].identity_id == found.candidate_id && (forall|i: int|
        0 <= i < at ==> (#[trigger] subjects[i]).identity_id != found.candidate_id) {
        subjects_are_found_at_their_first_place(subjects, found.candidate_id, at);
    }
    let pair = identities::canonical(anchor, found.candidate_id);
    if vetoes.contains(pair) {
        let i = choose|i: int| 0 <= i < vetoes.len() && vetoes[i] == pair;
        assert(vetoes[i] == pair);
    } else {
        assert forall|i: int| 0 <= i < vetoes.len() implies #[trigger] vetoes[i] != pair by {
            assert(vetoes.contains(vetoes[i]));
        }
    }
}

/// The candidate is one of those that were found, with its likeness.
pub open spec fn stems_from(
    edge: IdentityReviewEdge,
    subjects: Seq<ReviewSubject>,
    anchor: FaceIdentityId,
    found: Seq<FoundNeighbor>,
    vetoes: Seq<(FaceIdentityId, FaceIdentityId)>,
    threshold: Scalar,
) -> bool {
    exists|i: int|
        0 <= i < found.len() && (#[trigger] found[i]).similarity == edge.similarity && offered(
            subjects,
            anchor,
            found[i],
            vetoes,
            threshold,
            edge.candidate_index as int,
        )
}

/// The candidates for a subject are those found close to it that may be offered, each with its likeness.
/// They stand from the most alike on, and of equally alike ones the smaller number first.
pub proof fn candidates_are_offered_from_the_most_alike_on(
    edges: Seq<IdentityReviewEdge>,
    subjects: Seq<ReviewSubject>,
    anchor: FaceIdentityId,
    found: Seq<FoundNeighbor>,
    vetoes: Seq<(FaceIdentityId, FaceIdentityId)>,
    threshold: Scalar,
)
    requires
        identities::are_edges(edges, subjects, anchor, found, vetoes, threshold),
        subjects.len() <= usize::MAX,
        found.len() <= usize::MAX,
    ensures
        forall|k: int|
            0 <= k < edges.len() ==> stems_from(
                #[trigger] edges[k],
                subjects,
                anchor,
                found,
                vetoes,
                threshold,
            ),
        forall|i: int, at: int|
            #![trigger found[i], subjects[at]]
            0 <= i < found.len() && offered(subjects, anchor, found[i], vetoes, threshold, at)
                ==> edges.contains(
                IdentityReviewEdge { candidate_index: at as usize, similarity: found[i].similarity },
            ),
        forall|j: int, k: int|
            0 <= j < k < edges.len() ==> {
                let (p, q) = (#[trigger] edges[j], #[trigger] edges[k]);
                &&& p.similarity.place() >= q.similarity.place()
                &&& p.similarity == q.similarity ==> subjects[p.candidate_index as int].identity_id.0
                    <= subjects[q.candidate_index as int].identity_id.0
            },
{
    let (kept, placed) = choose|kept: Seq<usize>, order: Seq<usize>|
        {
            &&& pool::selects(
                kept,
                found.len() as int,
                |i: int| identities::is_candidate(subjects, anchor, found[i], vetoes, threshold),
            )
            &&& #[trigger] rank::is_ranking(order, identities::candidate_keys(found, kept))
            &&& edges == order.map_values(
                |k: usize|
                    IdentityReviewEdge {
                        candidate_index: identities::subject_position(
                            subjects,
                            found[kept[k as int] as int].candidate_id,
                        ) as usize,
                        similarity: found[kept[k as int] as int].similarity,
                    },
            )
        };
    let keys = identities::candidate_keys(found, kept);
    let good = |i: int| identities::is_candidate(subjects, anchor, found[i], vetoes, threshold);
    assert(pool::selects(kept, found.len() as int, good));
    assert forall|k: int| 0 <= k < edges.len() implies stems_from(
        #[trigger] edges[k],
        subjects,
        anchor,
        found,
        vetoes,
        threshold,
    ) by {
        let i = kept[placed[k] as int] as int;
        assert(placed[k] < kept.len());
        assert(kept[placed[k] as int] < found.len() && good(i));
        lemma_subject_position(subjects, found[i].candidate_id);
        lemma_offered(
            subjects,
            anchor,
            found[i],
            vetoes,
            threshold,
            identities::subject_position(subjects, found[i].candidate_id),
        );
        assert(found[i].similarity == edges[k].similarity);
    }
    assert forall|i: int, at: int|
        #![trigger found[i], subjects[at]]
        0 <= i < found.len() && offered(subjects, anchor, found[i], vetoes, threshold, at) implies edges.contains(
        IdentityReviewEdge { candidate_index: at as usize, similarity: found[i].similarity },
    ) by {
        lemma_offered(subjects, anchor, found[i], vetoes, threshold, at);
        assert(good(i as usize as int));
        assert(kept.contains(i as usize));
        let p = choose|p: int| 0 <= p < kept.len() && kept[p] == i as usize;
        lemma_kept_is_short(kept, found.len() as int);
        assert(placed.contains(p as usize));
        let k = choose|k: int| 0 <= k < placed.len() && placed[k] == p as usize;
        assert(edges[k] == (IdentityReviewEdge {
            candidate_index: at as usize,
            similarity: found[i].similarity,
        }));
    }
    assert forall|j: int, k: int| 0 <= j < k < edges.len() implies {
        let (p, q) = (#[trigger] edges[j], #[trigger] edges[k]);
        &&& p.similarity.place() >= q.similarity.place()
        &&& p.similarity == q.similarity ==> subjects[p.candidate_index as int].identity_id.0
            <= subjects[q.candidate_index as int].identity_id.0
    } by {
        let (s, t) = (kept[placed[j] as int], kept[placed[k] as int]);
        assert(placed[j] < kept.len() && placed[k] < kept.len());
        assert(s < found.len() && good(s as int));
        assert(t < found.len() && good(t as int));
        lemma_subject_position(subjects, found[s as int].candidate_id);
        lemma_subject_position(subjects, found[t as int].candidate_id);
        assert(rank::precedes(keys, placed[j] as int, placed[k] as int));
        let (x, y) = (
            identities::candidate_key(found[s as int]),
            identities::candidate_key(found[t as int]),
        );
        assert(keys[placed[j] as int] == x && keys[placed[k] as int] == y);
        order::numbers_are_placed_by_size(found[s as int].similarity, found[t as int].similarity);
        order::numbers_are_placed_by_size(found[t as int].similarity, found[s as int].similarity);
        assert(x[0] == -found[s as int].similarity.place() && y[0] == -found[t as int].similarity.place());
        assert(x[1] == found[s as int].candidate_id.0 && y[1] == found[t as int].candidate_id.0);
        rank::lemma_lex_order(x, y, x);
        if x[0] != y[0] {
            order::keys_are_compared_from_the_front(x, y, 0);
        } else if x[1] != y[1] {
            order::keys_are_compared_from_the_front(x, y, 1);
        }
    }
}

proof fn lemma_kept_is_short(kept: Seq<usize>, n: int)
    requires
        forall|i: int, j: int| 0 <= i < j < kept.len() ==> #[trigger] kept[i] < #[trigger] kept[j],
        forall|i: int| 0 <= i < kept.len() ==> (#[trigger] kept[i]) < n,
    ensures
        kept.len() <= n || kept.len() == 0,
    decreases kept.len(),
{
    if kept.len() > 0 {
        let fewer = kept.drop_last();
        let last = kept[kept.len() - 1] as int;
        assert forall|i: int| 0 <= i < fewer.len() implies (#[trigger] fewer[i]) < last by {
            assert(kept[i] < kept[kept.len() - 1]);
        }
        assert forall|i: int, j: int| 0 <= i < j < fewer.len() implies #[trigger] fewer[i]
            < #[trigger] fewer[j] by {
            assert(kept[i] < kept[j]);
        }
        lemma_kept_is_short(fewer, last);
        assert(kept[kept.len() - 1] < n);
    }
}

/// What was not offered yet stays in its order, and nothing else does.
pub proof fn only_new_candidates_stay(
    edges: Seq<IdentityReviewEdge>,
    taken: Set<usize>,
    edge: IdentityReviewEdge,
)
    ensures
        identities::unoffered(edges, taken).contains(edge) <==> edges.contains(edge) && !taken.contains(
            edge.candidate_index,
        ),
    decreases edges.len(),
{
    reveal(Seq::filter);
    if edges.len() > 0 {
        let before = edges.drop_last();
        only_new_candidates_stay(before, taken, edge);
        let r = identities::unoffered(edges, taken);
        let s = identities::unoffered(before, taken);
        assert(r == if taken.contains(edges.last().candidate_index) {
            s
        } else {
            s.push(edges.last())
        });
        if edges.contains(edge) {
            let i = choose|i: int| 0 <= i < edges.len() && edges[i] == edge;
            if i < before.len() {
                assert(before[i] == edge);
            }
        }
        if before.contains(edge) {
            let i = choose|i: int| 0 <= i < before.len() && before[i] == edge;
            assert(edges[i] == edge);
        }
        assert(edges[edges.len() - 1] == edges.last());
        if s.contains(edge) && !taken.contains(edges.last().candidate_index) {
            let i = choose|i: int| 0 <= i < s.len() && s[i] == edge;
            assert(r[i] == edge);
        }
        if !taken.contains(edges.last().candidate_index) {
            assert(r[s.len() as int] == edges.last());
            if r.contains(edge) && edge != edges.last() {
                let i = choose|i: int| 0 <= i < r.len() && r[i] == edge;
                assert(s[i] == edge);
            }
        }
    }
}

/// Every row offers something, and only candidates of its anchor.
pub proof fn rows_offer_candidates_of_their_anchor(
    turns: Seq<usize>,
    sets: Seq<Seq<IdentityReviewEdge>>,
    n: int,
    row: int,
    edge: IdentityReviewEdge,
)
    requires
        0 <= n <= turns.len(),
        0 <= row < identities::claims(turns, sets, n).rows.len(),
    ensures
        ({
            let (anchor, edges) = identities::claims(turns, sets, n).rows[row];
            &&& edges.len() > 0
            &&& turns.contains(anchor)
            &&& edges.contains(edge) ==> sets[anchor as int].contains(edge)
        }),
    decreases n,
{
    if n > 0 {
        let before = identities::claims(turns, sets, n - 1);
        if row < before.rows.len() {
            rows_offer_candidates_of_their_anchor(turns, sets, n - 1, row, edge);
        } else {
            only_new_candidates_stay(sets[turns[n - 1] as int], before.offered, edge);
        }
    }
}

/// No candidate is lost: when a subject has had its turn, it was itself offered to an earlier one, or
/// each of its candidates is offered in some row.
pub proof fn no_candidate_is_lost(
    turns: Seq<usize>,
    sets: Seq<Seq<IdentityReviewEdge>>,
    n: int,
    turn: int,
    edge: IdentityReviewEdge,
)
    requires
        0 <= turn < n <= turns.len(),
        sets[turns[turn] as int].contains(edge),
    ensures
        identities::claims(turns, sets, turn).offered.contains(turns[turn]) || identities::claims(
            turns,
            sets,
            n,
        ).offered.contains(edge.candidate_index),
    decreases n,
{
    let before = identities::claims(turns, sets, n - 1);
    if turn < n - 1 {
        no_candidate_is_lost(turns, sets, n - 1, turn, edge);
    } else {
        let anchor = turns[turn];
        let edges = identities::unoffered(sets[anchor as int], before.offered);
        only_new_candidates_stay(sets[anchor as int], before.offered, edge);
        if !before.offered.contains(anchor) && !before.offered.contains(edge.candidate_index) {
            assert(edges.contains(edge));
            lemma_candidate_listed(edges, edge);
        }
    }
}

proof fn lemma_candidate_listed(edges: Seq<IdentityReviewEdge>, edge: IdentityReviewEdge)
    requires
        edges.contains(edge),
    ensures
        identities::candidates_of(edges).contains(edge.candidate_index),
{
    let i = choose|i: int| 0 <= i < edges.len() && edges[i] == edge;
    let indices = edges.map_values(|e: IdentityReviewEdge| e.candidate_index);
    assert(indices[i] == edge.candidate_index);
}

/// What is offered is offered in a row.
pub proof fn offers_stand_in_rows(
    turns: Seq<usize>,
    sets: Seq<Seq<IdentityReviewEdge>>,
    n: int,
    candidate: usize,
)
    requires
        identities::claims(turns, sets, n).offered.contains(candidate),
    ensures
        exists|row: int|
            0 <= row < identities::claims(turns, sets, n).rows.len() && identities::candidates_of(
                (#[trigger] identities::claims(turns, sets, n).rows[row]).1,
            ).contains(candidate),
    decreases n,
{
    if n > 0 {
        let before = identities::claims(turns, sets, n - 1);
        let now = identities::claims(turns, sets, n);
        if before.offered.contains(candidate) {
            offers_stand_in_rows(turns, sets, n - 1, candidate);
            let row = choose|row: int|
                0 <= row < before.rows.len() && identities::candidates_of(
                    (#[trigger] before.rows[row]).1,
                ).contains(candidate);
            assert(now.rows[row] == before.rows[row]);
        } else {
            assert(identities::candidates_of(now.rows[now.rows.len() - 1].1).contains(candidate));
        }
    }
}

/// A subject may take its turn before another: a named one before a nameless one; then by the likeness
/// of the first candidate (where there is none, -2 stands for it), by the number of candidates and by
/// the number of faces, the larger first; then by the smaller number.
pub open spec fn may_go_before(
    a: ReviewSubject,
    x: Seq<IdentityReviewEdge>,
    b: ReviewSubject,
    y: Seq<IdentityReviewEdge>,
) -> bool {
    let none = Scalar { bits: 0xc000_0000 };
    let p = if x.len() == 0 {
        none
    } else {
        x[0].similarity
    };
    let q = if y.len() == 0 {
        none
    } else {
        y[0].similarity
    };
    &&& b.name is Some ==> a.name is Some
    &&& (a.name is Some <==> b.name is Some) ==> p.place() >= q.place()
    &&& (a.name is Some <==> b.name is Some) && p == q ==> x.len() >= y.len()
    &&& (a.name is Some <==> b.name is Some) && p == q && x.len() == y.len() ==> a.member_count
        >= b.member_count
    &&& (a.name is Some <==> b.name is Some) && p == q && x.len() == y.len() && a.member_count
        == b.member_count ==> a.identity_id.0 <= b.identity_id.0
}

/// Subjects take turns from the named and most alike on.
pub proof fn subjects_take_turns_by_what_they_offer(
    subjects: Seq<ReviewSubject>,
    sets: Seq<Seq<IdentityReviewEdge>>,
    turns: Seq<usize>,
    i: int,
    j: int,
)
    requires
        rank::is_ranking(turns, identities::anchor_keys(subjects, sets)),
        0 <= i < j < turns.len(),
        forall|k: int| 0 <= k < sets.len() ==> (#[trigger] sets[k]).len() <= usize::MAX,
        sets.len() == subjects.len(),
    ensures
        may_go_before(
            subjects[turns[i] as int],
            sets[turns[i] as int],
            subjects[turns[j] as int],
            sets[turns[j] as int],
        ),
{
    let keys = identities::anchor_keys(subjects, sets);
    assert(rank::precedes(keys, turns[i] as int, turns[j] as int));
    let (a, b) = (subjects[turns[i] as int], subjects[turns[j] as int]);
    let (s, t) = (sets[turns[i] as int], sets[turns[j] as int]);
    let (x, y) = (identities::anchor_key(a, s), identities::anchor_key(b, t));
    assert(keys[turns[i] as int] == x && keys[turns[j] as int] == y);
    let (p, q) = (identities::top_likeness(s), identities::top_likeness(t));
    order::numbers_are_placed_by_size(p, q);
    order::numbers_are_placed_by_size(q, p);
    assert(s.len() <= usize::MAX && t.len() <= usize::MAX);
    assert(x[0] == if a.name is Some {
        0i128
    } else {
        1i128
    });
    assert(y[0] == if b.name is Some {
        0i128
    } else {
        1i128
    });
    assert(x[1] == -p.place() && y[1] == -q.place());
    assert(x[2] == -s.len() && y[2] == -t.len());
    assert(x[3] == -a.member_count && y[3] == -b.member_count);
    assert(x[4] == a.identity_id.0 && y[4] == b.identity_id.0);
    rank::lemma_lex_order(x, y, x);
    if x[0] != y[0] {
        order::keys_are_compared_from_the_front(x, y, 0);
    } else if x[1] != y[1] {
        order::keys_are_compared_from_the_front(x, y, 1);
    } else if x[2] != y[2] {
        order::keys_are_compared_from_the_front(x, y, 2);
    } else if x[3] != y[3] {
        order::keys_are_compared_from_the_front(x, y, 3);
    } else if x[4] != y[4] {
        order::keys_are_compared_from_the_front(x, y, 4);
    }
}

/// A row may be shown above another: by the likeness of the first candidate and by the number of
/// candidates that are shown, the larger first; then a named subject before a nameless one; then by the
/// smaller number.
pub open spec fn may_be_above(
    subjects: Seq<ReviewSubject>,
    a: (usize, Seq<IdentityReviewEdge>),
    b: (usize, Seq<IdentityReviewEdge>),
    limit: int,
) -> bool {
    let (s, t) = (subjects[a.0 as int], subjects[b.0 as int]);
    let none = Scalar { bits: 0xc000_0000 };
    let p = if a.1.len() == 0 {
        none
    } else {
        a.1[0].similarity
    };
    let q = if b.1.len() == 0 {
        none
    } else {
        b.1[0].similarity
    };
    let x: int = if a.1.len() < limit {
        a.1.len() as int
    } else {
        limit
    };
    let y: int = if b.1.len() < limit {
        b.1.len() as int
    } else {
        limit
    };
    &&& p.place() >= q.place()
    &&& p == q ==> x >= y
    &&& p == q && x == y && t.name is Some ==> s.name is Some
    &&& p == q && x == y && (s.name is Some <==> t.name is Some) ==> s.identity_id.0 <= t.identity_id.0
}

/// Rows stand from the most alike on.
pub proof fn rows_stand_from_the_most_alike_on(
    subjects: Seq<ReviewSubject>,
    rows: Seq<(usize, Seq<IdentityReviewEdge>)>,
    limit: int,
    shown: Seq<usize>,
    i: int,
    j: int,
)
    requires
        rank::is_ranking(shown, identities::row_keys(subjects, rows, limit)),
        0 <= i < j < shown.len(),
        0 <= limit <= usize::MAX,
    ensures
        may_be_above(subjects, rows[shown[i] as int], rows[shown[j] as int], limit),
        shown[i] != shown[j],
{
    let keys = identities::row_keys(subjects, rows, limit);
    rank::lemma_ranking_distinct(shown, keys, i, j);
    assert(rank::precedes(keys, shown[i] as int, shown[j] as int));
    let (a, b) = (rows[shown[i] as int], rows[shown[j] as int]);
    let (s, t) = (subjects[a.0 as int], subjects[b.0 as int]);
    let (x, y) = (
        identities::row_key(subjects, a, limit),
        identities::row_key(subjects, b, limit),
    );
    assert(keys[shown[i] as int] == x && keys[shown[j] as int] == y);
    let (p, q) = (identities::top_likeness(a.1), identities::top_likeness(b.1));
    order::numbers_are_placed_by_size(p, q);
    order::numbers_are_placed_by_size(q, p);
    assert(x[0] == -p.place() && y[0] == -q.place());
    assert(x[1] == -identities::shown_count(a.1.len() as int, limit));
    assert(y[1] == -identities::shown_count(b.1.len() as int, limit));
    assert(x[2] == if s.name is Some {
        0i128
    } else {
        1i128
    });
    assert(y[2] == if t.name is Some {
        0i128
    } else {
        1i128
    });
    assert(x[3] == s.identity_id.0 && y[3] == t.identity_id.0);
    rank::lemma_lex_order(x, y, x);
    if x[0] != y[0] {
        order::keys_are_compared_from_the_front(x, y, 0);
    } else if x[1] != y[1] {
        order::keys_are_compared_from_the_front(x, y, 1);
    } else if x[2] != y[2] {
        order::keys_are_compared_from_the_front(x, y, 2);
    } else if x[3] != y[3] {
        order::keys_are_compared_from_the_front(x, y, 3);
    }
}

/// Where a subject is asked for, by name before by handle, the review is its row alone, with up to
/// sixty-four candidates; where nobody is, rows show up to twelve.
pub proof fn the_review_is_of_whom_is_asked_for(
    rows: Seq<(usize, Seq<IdentityReviewEdge>)>,
    limit: int,
    subjects: Seq<ReviewSubject>,
    sets: Seq<Seq<IdentityReviewEdge>>,
    slug: Option<Seq<char>>,
    anchor: Option<FaceIdentityId>,
    at: usize,
)
    requires
        identities::are_review_rows(rows, limit, subjects, sets, slug, anchor),
        sets.len() == subjects.len(),
        subjects.len() <= usize::MAX,
        at <= subjects.len(),
    ensures
        slug is None && anchor is None <==> limit == 12,
        slug is Some || anchor is Some <==> limit == 64,
        match (slug, anchor) {
            (Some(s), _) => (at < subjects.len() ==> has_slug(subjects[at as int], s)) && (forall|i: int|
                0 <= i < at ==> !has_slug(#[trigger] subjects[i], s)),
            (None, Some(id)) => (at < subjects.len() ==> subjects[at as int].identity_id == id) && (forall|
                i: int,
            |
                0 <= i < at ==> (#[trigger] subjects[i]).identity_id != id),
            (None, None) => false,
        } ==> rows == if at < subjects.len() {
            seq![(at, sets[at as int])]
        } else {
            Seq::empty()
        },
{
    match (slug, anchor) {
        (Some(s), _) => {
            if (at < subjects.len() ==> has_slug(subjects[at as int], s)) && (forall|i: int|
                0 <= i < at ==> !has_slug(#[trigger] subjects[i], s)) {
                names_are_found_at_their_first_place(subjects, s, at as int);
            }
        },
        (None, Some(id)) => {
            if (at < subjects.len() ==> subjects[at as int].identity_id == id) && (forall|i: int|
                0 <= i < at ==> (#[trigger] subjects[i]).identity_id != id) {
                subjects_are_found_at_their_first_place(subjects, id, at as int);
            }
        },
        (None, None) => {},
    }
}

/// All rows are shown where one subject is asked for, else at most sixty-four; a row shows as many
/// candidates as it has, up to the limit.
pub proof fn reviews_are_not_too_long(count: int, limit: int, focused: bool)
    requires
        0 <= count,
        0 <= limit,
    ensures
        focused ==> identities::shown_rows(count, focused) == count,
        !focused && count <= 64 ==> identities::shown_rows(count, focused) == count,
        !focused && count > 64 ==> identities::shown_rows(count, focused) == 64,
        count <= limit ==> identities::shown_count(count, limit) == count,
        count > limit ==> identities::shown_count(count, limit) == limit,
{
}

/// As many subjects are counted as have a name.
pub proof fn named_subjects_are_counted(subjects: Seq<ReviewSubject>)
    ensures
        identities::named_count(subjects) == subjects.filter(
            |subject: ReviewSubject| subject.name is Some,
        ).len(),
    decreases subjects.len(),
{
    reveal(Seq::filter);
    if subjects.len() > 0 {
        named_subjects_are_counted(subjects.drop_last());
    }
}

/// A row names its subject and each of its candidates: the handles lead back to them, and their faces,
/// names and numbers are theirs. It shows its first candidates, as many as fit.
pub proof fn rows_show_whom_they_are_about(
    view: IdentityReviewRowView,
    key: Seq<u8>,
    subjects: Seq<ReviewSubject>,
    row: (usize, Seq<IdentityReviewEdge>),
    limit: int,
    i: int,
)
    requires
        identities::shows_row(view, key, subjects, row, limit),
        0 <= limit,
    ensures
        ({
            let subject = subjects[row.0 as int];
            &&& identities::anchor_of(key, vstd::utf8::encode_utf8(view.anchor_handle@)) == Some(
                subject.identity_id,
            )
            &&& view.anchor_face == subject.representative_face
            &&& view.anchor_name == subject.name
            &&& subject.name is None <==> view.name_slug is None
            &&& subject.name is Some ==> view.name_slug->0@ == identities::subject_slug(subject.name->0@)
            &&& view.member_count == subject.member_count
            &&& view.candidate_count == row.1.len()
            &&& row.1.len() > 0 ==> view.top_similarity == Some(row.1[0].similarity)
            &&& row.1.len() == 0 ==> view.top_similarity is None
            &&& row.1.len() <= limit ==> view.candidates@.len() == row.1.len()
            &&& row.1.len() > limit ==> view.candidates@.len() == limit
        }),
        0 <= i < view.candidates@.len() ==> {
            let candidate = subjects[row.1[i].candidate_index as int];
            let shown = view.candidates@[i];
            &&& identities::pair_of(key, vstd::utf8::encode_utf8(shown.pair_handle@)) == Some(
                (subjects[row.0 as int].identity_id, candidate.identity_id),
            )
            &&& shown.face == candidate.representative_face
            &&& shown.similarity == row.1[i].similarity
        },
{
    let subject = subjects[row.0 as int];
    identities::handles_name_what_they_were_made_for(key, subject.identity_id, subject.identity_id);
    if 0 <= i < view.candidates@.len() {
        let candidate = subjects[row.1[i].candidate_index as int];
        assert(identities::shows_candidate(view.candidates@[i], key, subjects, row.0, row.1[i]));
        identities::handles_name_what_they_were_made_for(
            key,
            subject.identity_id,
            candidate.identity_id,
        );
    }
}

/// Every face belongs to the group of its subject and to no other.
pub proof fn faces_are_grouped_by_their_subject(
    groups: Seq<FaceGroup>,
    owners: Seq<FaceIdentityId>,
    face: usize,
    group: int,
)
    requires
        identities::are_groups(groups, owners),
        face < owners.len(),
        0 <= group < groups.len(),
    ensures
        groups[group].members@.contains(face) <==> groups[group].identity_id == owners[face as int],
        exists|i: int|
            0 <= i < groups.len() && (#[trigger] groups[i]).identity_id == owners[face as int],
        groups[group].members@.len() > 0,
        forall|i: int, j: int|
            0 <= i < j < groups.len() ==> (#[trigger] groups[i]).identity_id.0 < (
            #[trigger] groups[j]).identity_id.0,
{
    let members = groups[group].members@;
    let own = |k: int| owners[k] == groups[group].identity_id;
    assert(pool::selects(members, owners.len() as int, own));
    if members.contains(face) {
        let i = choose|i: int| 0 <= i < members.len() && members[i] == face;
        assert(own(members[i] as int));
    }
    if own(face as int) {
        assert(members.contains(face));
    }
    let owner = owners[face as int];
    let i = choose|i: int| 0 <= i < groups.len() && (#[trigger] groups[i]).identity_id == owner;
    assert(groups[i].identity_id == owner);
}

/// Names are put in lower case character by character: those of ASCII keep their length, with the small
/// letter for each capital.
pub proof fn names_are_put_in_lower_case(name: Seq<char>, more: char)
    ensures
        identities::lowercased(name.push(more)) == identities::lowercased(name) + identities::lowercase(
            more,
        ),
        (forall|i: int| 0 <= i < name.len() ==> #[trigger] name[i] <= '\u{7f}') ==> identities::lowercased(
            name,
        ) == config::lowered(name),
    decreases name.len(),
{
    assert(name.push(more).drop_last() =~= name);
    if name.len() == 0 {
        assert(config::lowered(name) =~= Seq::<char>::empty());
    } else {
        let before = name.drop_last();
        names_are_put_in_lower_case(before, name.last());
        assert(before.push(name.last()) =~= name);
        if forall|i: int| 0 <= i < name.len() ==> #[trigger] name[i] <= '\u{7f}' {
            assert forall|i: int| 0 <= i < before.len() implies #[trigger] before[i] <= '\u{7f}' by {
                assert(name[i] <= '\u{7f}');
            }
            assert(name[name.len() - 1] <= '\u{7f}');
            assert(config::lowered(name) =~= config::lowered(before) + seq![config::lower(name.last())]);
        }
    }
}

proof fn lemma_rows_follow_turns(turns: Seq<usize>, sets: Seq<Seq<IdentityReviewEdge>>, n: int) -> (places:
    Seq<int>)
    requires
        0 <= n <= turns.len(),
    ensures
        places.len() == identities::claims(turns, sets, n).rows.len(),
        forall|i: int|
            0 <= i < places.len() ==> 0 <= #[trigger] places[i] < n && turns[places[i]]
                == identities::claims(turns, sets, n).rows[i].0,
        forall|i: int, j: int| 0 <= i < j < places.len() ==> #[trigger] places[i] < #[trigger] places[j],
    decreases n,
{
    if n <= 0 {
        Seq::empty()
    } else {
        let earlier = lemma_rows_follow_turns(turns, sets, n - 1);
        let before = identities::claims(turns, sets, n - 1);
        let now = identities::claims(turns, sets, n);
        if now.rows.len() > before.rows.len() {
            let places = earlier.push(n - 1);
            assert forall|i: int| 0 <= i < places.len() implies 0 <= #[trigger] places[i] < n
                && turns[places[i]] == now.rows[i].0 by {
                if i < earlier.len() {
                    assert(places[i] == earlier[i]);
                    assert(now.rows[i] == before.rows[i]);
                }
            }
            places
        } else {
            earlier
        }
    }
}

/// Where nobody is asked for, the rows are of subjects that take turns from the named and most alike on.
pub proof fn rows_are_of_subjects_in_turn(
    rows: Seq<(usize, Seq<IdentityReviewEdge>)>,
    limit: int,
    subjects: Seq<ReviewSubject>,
    sets: Seq<Seq<IdentityReviewEdge>>,
    i: int,
    j: int,
)
    requires
        identities::are_review_rows(rows, limit, subjects, sets, None, None),
        0 <= i < j < rows.len(),
        sets.len() == subjects.len(),
        forall|k: int| 0 <= k < sets.len() ==> (#[trigger] sets[k]).len() <= usize::MAX,
    ensures
        rows[i].0 != rows[j].0,
        may_go_before(
            subjects[rows[i].0 as int],
            sets[rows[i].0 as int],
            subjects[rows[j].0 as int],
            sets[rows[j].0 as int],
        ),
{
    let keys = identities::anchor_keys(subjects, sets);
    let turns = choose|turns: Seq<usize>| #[trigger]
        rank::is_ranking(turns, keys) && rows == identities::claims(turns, sets, turns.len() as int).rows;
    let places = lemma_rows_follow_turns(turns, sets, turns.len() as int);
    assert(places[i] < places[j]);
    assert(turns[places[i]] == rows[i].0 && turns[places[j]] == rows[j].0);
    rank::lemma_ranking_distinct(turns, keys, places[i], places[j]);
    subjects_take_turns_by_what_they_offer(subjects, sets, turns, places[i], places[j]);
}

} // verus!
