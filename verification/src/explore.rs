//! The map of similar images: which images it shows, what lies close to an image, and which three
//! images the user is asked to compare.
use crate::model::{AssetId, ExploreMapMode};
use crate::pool;
use crate::rank;
use crate::runtime::RedirectTarget;
use crate::scalar::Scalar;
use crate::textset::TextSet;
use rand::seq::SliceRandom;
use vstd::prelude::*;

verus! {

/// How many of the comparisons made last count as made lately.
pub const EXPLORE_RECENT_EXCLUDE: usize = 18;

/// How many images are tried as the first of a triad.
pub const EXPLORE_TRIAD_ANCHORS: usize = 24;

/// How many images close to the first are tried as the others.
pub const EXPLORE_TRIAD_NEIGHBORS: usize = 8;

/// How many images are looked for around the first.
pub const EXPLORE_TRIAD_REACH: usize = 11;

/// How many images are shown around the one that the user looks at.
pub const EXPLORE_SELECTION_NEIGHBORS: usize = 14;

/// How many triads chance decides between.
pub const EXPLORE_TRIAD_TOP_K: usize = 12;

/// The largest distance at which an image counts as itself: a millionth, as a bit pattern.
pub const SELF_DISTANCE_BITS: u32 = 0x3586_37bd;

/// Text `a` stands before text `b`.
pub open spec fn text_below(a: Seq<char>, b: Seq<char>) -> bool {
    rank::lex_lt(rank::text_key(a), rank::text_key(b))
}

/// Whether text `a` stands before text `b`.
pub fn is_text_below(a: &str, b: &str) -> (r: bool)
    ensures
        r == text_below(a@, b@),
{
    let mut left: Vec<i128> = Vec::new();
    let mut right: Vec<i128> = Vec::new();
    rank::push_text_key(&mut left, a);
    rank::push_text_key(&mut right, b);
    assert(left@ =~= rank::text_key(a@));
    assert(right@ =~= rank::text_key(b@));
    rank::key_below(&left, &right)
}

/// Characters with one code are one character.
proof fn lemma_code_tells_apart(a: char, b: char)
    requires
        a as u32 as i128 == b as u32 as i128,
    ensures
        a == b,
{
}

/// Texts with one key are one text.
proof fn lemma_text_key_tells_apart(a: Seq<char>, b: Seq<char>)
    requires
        rank::text_key(a) == rank::text_key(b),
    ensures
        a == b,
{
    assert(rank::text_key(a).len() == a.len());
    assert forall|i: int| 0 <= i < a.len() implies a[i] == b[i] by {
        assert(rank::text_key(a)[i] == rank::text_key(b)[i]);
        assert(rank::text_key(a)[i] == a[i] as u32 as i128);
        assert(rank::text_key(b)[i] == b[i] as u32 as i128);
        lemma_code_tells_apart(a[i], b[i]);
    }
    assert(a =~= b);
}

/// The images of the map in the order of their names: those that can be shown and have an
/// embedding.
pub fn explore_ids(visible: &Vec<AssetId>, embedded: &TextSet) -> (order: Vec<usize>)
    ensures
        rank::is_ranked_choice(
            order@,
            visible@.len() as int,
            |i: int| embedded@.contains(visible@[i]@),
            |i: int| rank::text_key(visible@[i]@),
        ),
{
    let mut flags: Vec<bool> = Vec::new();
    let mut keys: Vec<Vec<i128>> = Vec::new();
    let mut i: usize = 0;
    while i < visible.len()
        invariant
            i <= visible.len(),
            flags.len() == i,
            keys.len() == i,
            forall|j: int| 0 <= j < i ==> #[trigger] flags@[j] == embedded@.contains(visible@[j]@),
            forall|j: int| 0 <= j < i ==> (#[trigger] keys@[j])@ == rank::text_key(visible@[j]@),
        decreases visible.len() - i,
    {
        flags.push(embedded.contains(&visible[i].0));
        let mut key: Vec<i128> = Vec::new();
        rank::push_text_key(&mut key, visible[i].0.as_str());
        assert(key@ =~= rank::text_key(visible@[i as int]@));
        keys.push(key);
        i += 1;
    }
    let order = rank::ranked_choice(&flags, &keys);
    proof {
        rank::lemma_ranked_by(
            order@,
            flags@,
            keys@,
            |j: int| embedded@.contains(visible@[j]@),
            |j: int| rank::text_key(visible@[j]@),
        );
    }
    order
}

/// Both lists hold the same names in the same order.
pub open spec fn same_ids(a: Seq<AssetId>, b: Seq<AssetId>) -> bool {
    a.len() == b.len() && forall|i: int| 0 <= i < a.len() ==> (#[trigger] a[i])@ == b[i]@
}

/// Whether what was computed for some images can be used again: it was computed for the same ones.
pub fn cache_still_holds(cached: &Vec<AssetId>, current: &Vec<AssetId>) -> (r: bool)
    ensures
        r == same_ids(cached@, current@),
{
    if cached.len() != current.len() {
        return false;
    }
    let mut i: usize = 0;
    while i < cached.len()
        invariant
            i <= cached.len(),
            cached.len() == current.len(),
            forall|j: int| 0 <= j < i ==> (#[trigger] cached@[j])@ == current@[j]@,
        decreases cached.len() - i,
    {
        if !cached[i].same(&current[i]) {
            return false;
        }
        i += 1;
    }
    true
}

/// Where the model of similarity comes from.
#[derive(Debug, Clone, Copy, PartialEq, Eq, Structural)]
pub enum SimilaritySource {
    /// There is nothing to compare.
    Nothing,
    Stored,
    /// The main axes of the embeddings.
    Seeded,
}

/// What is known of a stored model of similarity.
#[derive(Debug, Clone, Copy, PartialEq, Eq, Structural)]
pub struct StoredSimilarity {
    pub dim: usize,
    /// The model tells the images apart.
    pub viable: bool,
}

/// Where the model of similarity comes from: the stored one where it fits the images, else the main
/// axes of their embeddings. `exemplar_dim` is the length of the first embedding.
pub fn similarity_source(
    assets: usize,
    exemplar_dim: usize,
    stored: Option<StoredSimilarity>,
) -> (r: SimilaritySource)
    ensures
        r == if assets == 0 || exemplar_dim == 0 {
            SimilaritySource::Nothing
        } else {
            match stored {
                Some(model) => if model.dim == exemplar_dim && model.viable {
                    SimilaritySource::Stored
                } else {
                    SimilaritySource::Seeded
                },
                None => SimilaritySource::Seeded,
            }
        },
{
    if assets == 0 || exemplar_dim == 0 {
        return SimilaritySource::Nothing;
    }
    match stored {
        Some(model) => {
            if model.dim == exemplar_dim && model.viable {
                SimilaritySource::Stored
            } else {
                SimilaritySource::Seeded
            }
        },
        None => SimilaritySource::Seeded,
    }
}

/// Whether enough comparisons were made to fit the model from their order alone. `pending` counts
/// those that are just being made.
pub fn ordinal_bootstrap_due(history: usize, pending: usize, needed: usize, already_ordinal: bool) -> (r:
    bool)
    ensures
        r == (!already_ordinal && history + pending >= needed),
{
    if already_ordinal {
        return false;
    }
    history >= needed || pending >= needed - history
}

/// An image counts as close to another: it has a distance, and is the other one itself only where
/// that is asked for and the distance is nothing.
pub open spec fn counts_as_neighbor(
    ids: Seq<AssetId>,
    focus: Seq<char>,
    distances: Seq<Option<Scalar>>,
    include_self: bool,
    i: int,
) -> bool {
    match distances[i] {
        None => false,
        Some(distance) => ids[i]@ != focus || (include_self && (Scalar {
            bits: SELF_DISTANCE_BITS,
        }).reaches(distance)),
    }
}

/// What images are ordered by around another: the closest first, then by name.
pub open spec fn neighbor_key(ids: Seq<AssetId>, distances: Seq<Option<Scalar>>, i: int) -> Seq<i128> {
    match distances[i] {
        None => Seq::empty(),
        Some(distance) => seq![distance.place() as i128] + rank::text_key(ids[i]@),
    }
}

/// `order` lists the places of the images close to another, the closest first.
pub open spec fn is_neighbor_order(
    order: Seq<usize>,
    ids: Seq<AssetId>,
    focus: Seq<char>,
    distances: Seq<Option<Scalar>>,
    include_self: bool,
) -> bool {
    rank::is_ranked_choice(
        order,
        ids.len() as int,
        |i: int| counts_as_neighbor(ids, focus, distances, include_self, i),
        |i: int| neighbor_key(ids, distances, i),
    )
}

/// The first `limit` places.
pub open spec fn first_places(order: Seq<usize>, limit: int) -> Seq<usize> {
    if order.len() > limit {
        order.take(limit)
    } else {
        order
    }
}

/// The images closest to `focus`, at most `limit`. `distances` holds the distance of each image, if
/// it has one.
pub fn nearest_neighbors(
    ids: &Vec<AssetId>,
    focus: &AssetId,
    distances: &Vec<Option<Scalar>>,
    limit: usize,
    include_self: bool,
) -> (r: Vec<usize>)
    requires
        ids@.len() == distances@.len(),
    ensures
        exists|order: Seq<usize>| #[trigger]
            is_neighbor_order(order, ids@, focus@, distances@, include_self) && r@ == first_places(
                order,
                limit as int,
            ),
        forall|i: int| 0 <= i < r@.len() ==> (#[trigger] r@[i]) < ids@.len(),
{
    let threshold = Scalar { bits: SELF_DISTANCE_BITS };
    let mut flags: Vec<bool> = Vec::new();
    let mut keys: Vec<Vec<i128>> = Vec::new();
    let mut i: usize = 0;
    while i < ids.len()
        invariant
            i <= ids.len(),
            ids.len() == distances.len(),
            threshold == (Scalar { bits: SELF_DISTANCE_BITS }),
            flags.len() == i,
            keys.len() == i,
            forall|j: int|
                0 <= j < i ==> #[trigger] flags@[j] == counts_as_neighbor(
                    ids@,
                    focus@,
                    distances@,
                    include_self,
                    j,
                ),
            forall|j: int| 0 <= j < i ==> (#[trigger] keys@[j])@ == neighbor_key(ids@, distances@, j),
        decreases ids.len() - i,
    {
        let mut key: Vec<i128> = Vec::new();
        match distances[i] {
            None => {
                flags.push(false);
            },
            Some(distance) => {
                let keep = !ids[i].same(focus) || (include_self && threshold.does_reach(distance));
                flags.push(keep);
                key.push(distance.place_key());
                rank::push_text_key(&mut key, ids[i].0.as_str());
            },
        }
        assert(key@ =~= neighbor_key(ids@, distances@, i as int));
        keys.push(key);
        i += 1;
    }
    let mut order = rank::ranked_choice(&flags, &keys);
    let ghost full = order@;
    proof {
        rank::lemma_ranked_by(
            full,
            flags@,
            keys@,
            |j: int| counts_as_neighbor(ids@, focus@, distances@, include_self, j),
            |j: int| neighbor_key(ids@, distances@, j),
        );
        assert(is_neighbor_order(full, ids@, focus@, distances@, include_self));
        assert forall|k: int| 0 <= k < full.len() implies (#[trigger] full[k]) < ids@.len() by {}
    }
    order.truncate(limit);
    assert(order@ =~= first_places(full, limit as int));
    order
}

/// The image that the user looks at: the one asked for, else the first of the triad.
pub fn selection_focus(focus_id: Option<&AssetId>, triad_a: Option<&AssetId>) -> (r: Option<AssetId>)
    ensures
        r == match (focus_id, triad_a) {
            (Some(id), _) => Some(*id),
            (None, Some(id)) => Some(*id),
            (None, None) => None,
        },
{
    match focus_id {
        Some(id) => Some(id.clone()),
        None => match triad_a {
            Some(id) => Some(id.clone()),
            None => None,
        },
    }
}

/// Three images to compare.
#[derive(Debug)]
pub struct AssetTriad {
    pub a: AssetId,
    pub b: AssetId,
    pub c: AssetId,
}

/// The names of three images.
pub open spec fn names(triad: AssetTriad) -> (Seq<char>, Seq<char>, Seq<char>) {
    (triad.a@, triad.b@, triad.c@)
}

/// Both are the same three names, in whatever order.
pub open spec fn same_three(
    t: (Seq<char>, Seq<char>, Seq<char>),
    u: (Seq<char>, Seq<char>, Seq<char>),
) -> bool {
    ||| u == (t.0, t.1, t.2)
    ||| u == (t.0, t.2, t.1)
    ||| u == (t.1, t.0, t.2)
    ||| u == (t.1, t.2, t.0)
    ||| u == (t.2, t.0, t.1)
    ||| u == (t.2, t.1, t.0)
}

/// The names stand in order.
pub open spec fn in_order(t: (Seq<char>, Seq<char>, Seq<char>)) -> bool {
    !text_below(t.1, t.0) && !text_below(t.2, t.1)
}

/// The same three images in the order of their names.
pub fn canonical_triad(triad: &AssetTriad) -> (r: AssetTriad)
    ensures
        same_three(names(*triad), names(r)),
        in_order(names(r)),
{
    let a = &triad.a;
    let b = &triad.b;
    let c = &triad.c;
    let (x, y) = if is_text_below(b.0.as_str(), a.0.as_str()) {
        (b, a)
    } else {
        (a, b)
    };
    proof {
        lemma_text_order(a@, b@, c@);
        lemma_text_order(x@, y@, c@);
        lemma_text_order(c@, x@, y@);
        lemma_text_order(y@, c@, x@);
    }
    if !is_text_below(c.0.as_str(), y.0.as_str()) {
        AssetTriad { a: x.clone(), b: y.clone(), c: c.clone() }
    } else if is_text_below(c.0.as_str(), x.0.as_str()) {
        AssetTriad { a: c.clone(), b: x.clone(), c: y.clone() }
    } else {
        AssetTriad { a: x.clone(), b: c.clone(), c: y.clone() }
    }
}

/// The order of texts is a total order.
proof fn lemma_text_order(a: Seq<char>, b: Seq<char>, c: Seq<char>)
    ensures
        !text_below(a, a),
        a == b || text_below(a, b) || text_below(b, a),
        !(text_below(a, b) && text_below(b, a)),
        text_below(a, b) && text_below(b, c) ==> text_below(a, c),
{
    let x = rank::text_key(a);
    let y = rank::text_key(b);
    let z = rank::text_key(c);
    rank::lemma_lex_order(x, y, z);
    rank::lemma_lex_order(x, y, x);
    if x == y {
        lemma_text_key_tells_apart(a, b);
    }
}

/// The order in which three images are given does not matter: put in order, they are the same.
pub proof fn canonical_triads_are_unique(
    t: (Seq<char>, Seq<char>, Seq<char>),
    u: (Seq<char>, Seq<char>, Seq<char>),
)
    requires
        same_three(t, u),
        in_order(t),
        in_order(u),
    ensures
        t == u,
{
    lemma_text_order(t.0, t.1, t.2);
    lemma_text_order(t.1, t.2, t.0);
    lemma_text_order(t.2, t.0, t.1);
    lemma_text_order(t.0, t.2, t.1);
    lemma_text_order(t.1, t.0, t.2);
    lemma_text_order(t.2, t.1, t.0);
}

/// How many places of a triad an image has.
pub open spec fn places_in(triad: AssetTriad, id: Seq<char>) -> int {
    (if triad.a@ == id {
        1int
    } else {
        0
    }) + (if triad.b@ == id {
        1int
    } else {
        0
    }) + (if triad.c@ == id {
        1int
    } else {
        0
    })
}

/// How often an image was compared lately.
pub open spec fn recent_count_of(recent: Seq<AssetTriad>, id: Seq<char>) -> int
    decreases recent.len(),
{
    if recent.len() == 0 {
        0
    } else {
        recent_count_of(recent.drop_last(), id) + places_in(recent.last(), id)
    }
}

/// How often an image was compared lately.
pub fn recent_count(recent: &Vec<AssetTriad>, id: &AssetId) -> (r: usize)
    requires
        recent@.len() <= usize::MAX / 3,
    ensures
        r == recent_count_of(recent@, id@),
{
    let mut count: usize = 0;
    let mut i: usize = 0;
    while i < recent.len()
        invariant
            i <= recent.len(),
            recent@.len() <= usize::MAX / 3,
            count <= 3 * i,
            count == recent_count_of(recent@.take(i as int), id@),
        decreases recent.len() - i,
    {
        proof {
            assert(recent@.take(i + 1).drop_last() =~= recent@.take(i as int));
        }
        if recent[i].a.same(id) {
            count += 1;
        }
        if recent[i].b.same(id) {
            count += 1;
        }
        if recent[i].c.same(id) {
            count += 1;
        }
        i += 1;
    }
    assert(recent@.take(i as int) =~= recent@);
    count
}

/// The same three images were compared lately.
pub open spec fn repeats(recent: Seq<AssetTriad>, triad: AssetTriad) -> bool {
    exists|j: int| 0 <= j < recent.len() && same_three(names(#[trigger] recent[j]), names(triad))
}

/// What counts against asking for three images again: whether exactly they were compared lately,
/// and how often each of them was, together.
pub fn repeat_counts(recent: &Vec<AssetTriad>, triad: &AssetTriad) -> (r: (bool, usize))
    requires
        recent@.len() <= usize::MAX / 9,
    ensures
        r.0 == repeats(recent@, *triad),
        r.1 == recent_count_of(recent@, triad.a@) + recent_count_of(recent@, triad.b@)
            + recent_count_of(recent@, triad.c@),
{
    let canonical = canonical_triad(triad);
    let mut exact = false;
    let mut i: usize = 0;
    while i < recent.len() && !exact
        invariant
            i <= recent.len(),
            same_three(names(*triad), names(canonical)),
            in_order(names(canonical)),
            exact ==> repeats(recent@, *triad),
            !exact ==> forall|j: int| 0 <= j < i ==> !same_three(names(#[trigger] recent@[j]), names(*triad)),
        decreases recent.len() - i,
    {
        let other = canonical_triad(&recent[i]);
        let same = other.a.same(&canonical.a) && other.b.same(&canonical.b) && other.c.same(
            &canonical.c,
        );
        proof {
            if same {
                assert(names(other) == names(canonical));
                assert(same_three(names(recent@[i as int]), names(*triad)));
            } else if same_three(names(recent@[i as int]), names(*triad)) {
                assert(same_three(names(other), names(canonical)));
                canonical_triads_are_unique(names(other), names(canonical));
            }
        }
        exact = same;
        i += 1;
    }
    let in_a = recent_count(recent, &triad.a);
    let in_b = recent_count(recent, &triad.b);
    let in_c = recent_count(recent, &triad.c);
    proof {
        lemma_recent_count_bound(recent@, triad.a@);
        lemma_recent_count_bound(recent@, triad.b@);
        lemma_recent_count_bound(recent@, triad.c@);
    }
    (exact, in_a + in_b + in_c)
}

proof fn lemma_recent_count_bound(recent: Seq<AssetTriad>, id: Seq<char>)
    ensures
        0 <= recent_count_of(recent, id) <= 3 * recent.len(),
    decreases recent.len(),
{
    if recent.len() > 0 {
        lemma_recent_count_bound(recent.drop_last(), id);
    }
}

/// `order` lists each place below `n` once.
pub open spec fn is_shuffle(order: Seq<usize>, n: int) -> bool {
    &&& order.len() == n
    &&& order.no_duplicates()
    &&& forall|i: int| 0 <= i < order.len() ==> (#[trigger] order[i]) < n
}

/// Puts the values in an order that chance decides, by `SliceRandom::shuffle` of the crate `rand`
/// with the generator of the thread: the values stay the same, each as often as before. Which order
/// comes out is left open. Making the generator fails only where the system gives no randomness.
#[verifier::external_body]
fn shuffle(values: &mut Vec<usize>)
    ensures
        final(values)@.to_multiset() == old(values)@.to_multiset(),
{
    values.shuffle(&mut rand::rng());
}

/// Puts different values in an order that chance decides.
pub fn shuffled(values: Vec<usize>) -> (r: Vec<usize>)
    requires
        values@.no_duplicates(),
    ensures
        r@.len() == values@.len(),
        r@.no_duplicates(),
        r@.to_set() == values@.to_set(),
{
    let mut r = values;
    let ghost before = r@;
    shuffle(&mut r);
    proof {
        lemma_same_values(before, r@);
    }
    r
}

proof fn lemma_same_values(before: Seq<usize>, after: Seq<usize>)
    requires
        before.no_duplicates(),
        after.to_multiset() == before.to_multiset(),
    ensures
        after.len() == before.len(),
        after.no_duplicates(),
        after.to_set() == before.to_set(),
{
    broadcast use vstd::seq_lib::group_to_multiset_ensures;

    assert(before.to_multiset().len() == before.len());
    assert(after.to_multiset().len() == after.len());
    before.lemma_multiset_has_no_duplicates();
    assert forall|x: usize| before.contains(x) <==> after.contains(x) by {
        assert(before.contains(x) <==> before.to_multiset().count(x) > 0);
        assert(after.contains(x) <==> after.to_multiset().count(x) > 0);
    }
    assert(after.to_set() =~= before.to_set());
    before.unique_seq_to_set();
    after.lemma_multiset_has_no_duplicates_conv();
}

/// The places of an image that was not compared lately.
pub open spec fn is_unseen(ids: Seq<AssetId>, recent: Seq<AssetTriad>, at: usize) -> bool {
    recent_count_of(recent, ids[at as int]@) == 0
}

/// Those places of `order` whose images were not compared lately.
pub open spec fn unseen(ids: Seq<AssetId>, recent: Seq<AssetTriad>, order: Seq<usize>) -> Seq<usize> {
    order.filter(|at: usize| is_unseen(ids, recent, at))
}

/// The images that are tried as the first of a triad, for a given order: those not compared lately
/// where there are three, else all; two dozen at most.
pub open spec fn anchors_of(ids: Seq<AssetId>, recent: Seq<AssetTriad>, order: Seq<usize>) -> Seq<usize> {
    let fresh = unseen(ids, recent, order);
    first_places(
        if fresh.len() >= 3 {
            fresh
        } else {
            order
        },
        EXPLORE_TRIAD_ANCHORS as int,
    )
}

fn keep_unseen(ids: &Vec<AssetId>, recent: &Vec<AssetTriad>, order: &Vec<usize>) -> (r: Vec<usize>)
    requires
        recent@.len() <= usize::MAX / 3,
        forall|i: int| 0 <= i < order@.len() ==> (#[trigger] order@[i]) < ids@.len(),
    ensures
        r@ == unseen(ids@, recent@, order@),
{
    let mut r: Vec<usize> = Vec::new();
    let mut i: usize = 0;
    let ghost fresh = |at: usize| is_unseen(ids@, recent@, at);
    assert(order@.take(0).filter(fresh) =~= Seq::<usize>::empty()) by {
        reveal(Seq::filter);
    }
    while i < order.len()
        invariant
            i <= order.len(),
            recent@.len() <= usize::MAX / 3,
            forall|j: int| 0 <= j < order@.len() ==> (#[trigger] order@[j]) < ids@.len(),
            fresh == (|at: usize| is_unseen(ids@, recent@, at)),
            r@ == order@.take(i as int).filter(fresh),
        decreases order.len() - i,
    {
        let at = order[i];
        proof {
            reveal(Seq::filter);
            assert(order@.take(i + 1).drop_last() =~= order@.take(i as int));
            assert(order@.take(i + 1).last() == at);
        }
        if recent_count(recent, &ids[at]) == 0 {
            r.push(at);
        }
        i += 1;
    }
    assert(order@.take(i as int) =~= order@);
    r
}

/// The images that are tried as the first of a triad, for a given order.
pub fn triad_anchors(ids: &Vec<AssetId>, recent: &Vec<AssetTriad>, order: &Vec<usize>) -> (r: Vec<usize>)
    requires
        recent@.len() <= usize::MAX / 3,
        forall|i: int| 0 <= i < order@.len() ==> (#[trigger] order@[i]) < ids@.len(),
    ensures
        r@ == anchors_of(ids@, recent@, order@),
{
    let fresh = keep_unseen(ids, recent, order);
    let mut r: Vec<usize> = Vec::new();
    let from = if fresh.len() >= 3 {
        &fresh
    } else {
        order
    };
    let mut i: usize = 0;
    while i < from.len() && i < EXPLORE_TRIAD_ANCHORS
        invariant
            i <= from.len(),
            i <= EXPLORE_TRIAD_ANCHORS,
            r@ == from@.take(i as int),
        decreases from.len() - i,
    {
        r.push(from[i]);
        assert(from@.take(i + 1) =~= from@.take(i as int).push(from@[i as int]));
        i += 1;
    }
    assert(r@ =~= first_places(from@, EXPLORE_TRIAD_ANCHORS as int));
    r
}

fn places_below(n: usize) -> (r: Vec<usize>)
    ensures
        r@ == Seq::new(n as nat, |i: int| i as usize),
{
    let mut r: Vec<usize> = Vec::new();
    let mut i: usize = 0;
    while i < n
        invariant
            i <= n,
            r@ == Seq::new(i as nat, |k: int| k as usize),
        decreases n - i,
    {
        r.push(i);
        i += 1;
        assert(r@ =~= Seq::new(i as nat, |k: int| k as usize));
    }
    r
}

/// The images that are tried as the first of a triad, in an order that chance decides. There are
/// none where there are not three images.
pub fn draw_triad_anchors(ids: &Vec<AssetId>, recent: &Vec<AssetTriad>) -> (r: Vec<usize>)
    requires
        recent@.len() <= usize::MAX / 3,
    ensures
        ids@.len() < 3 ==> r@.len() == 0,
        ids@.len() >= 3 ==> exists|order: Seq<usize>| #[trigger]
            is_shuffle(order, ids@.len() as int) && r@ == anchors_of(ids@, recent@, order),
{
    if ids.len() < 3 {
        return Vec::new();
    }
    let all = places_below(ids.len());
    let ghost plain = all@;
    assert(plain.no_duplicates());
    let order = shuffled(all);
    proof {
        assert forall|i: int| 0 <= i < order@.len() implies (#[trigger] order@[i]) < ids@.len() by {
            assert(order@.to_set().contains(order@[i]));
            assert(plain.contains(order@[i]));
        }
        assert(is_shuffle(order@, ids@.len() as int));
    }
    triad_anchors(ids, recent, &order)
}

/// The images that are tried beside the first: those close to it that were not compared lately; if
/// these are not two, all that are close; if these are not two, also those that are not close, again
/// without those compared lately while two are left.
pub open spec fn are_triad_candidates(
    r: Seq<usize>,
    ids: Seq<AssetId>,
    recent: Seq<AssetTriad>,
    anchor: usize,
    neighbors: Seq<usize>,
) -> bool {
    let fresh = unseen(ids, recent, neighbors);
    if fresh.len() >= 2 {
        r == fresh
    } else if neighbors.len() >= 2 {
        r == neighbors
    } else {
        exists|wider: Seq<usize>|
            {
                &&& #[trigger] pool::selects(wider, ids.len() as int, wider_choice(ids, recent, anchor, neighbors))
                &&& if wider.len() >= 2 {
                    r == wider
                } else {
                    pool::selects(r, ids.len() as int, widest_choice(anchor, neighbors))
                }
            }
    }
}

/// Close to the first, or another that was not compared lately.
pub open spec fn wider_choice(
    ids: Seq<AssetId>,
    recent: Seq<AssetTriad>,
    anchor: usize,
    neighbors: Seq<usize>,
) -> spec_fn(int) -> bool {
    |k: int| neighbors.contains(k as usize) || (k != anchor && is_unseen(ids, recent, k as usize))
}

/// Close to the first, or any other.
pub open spec fn widest_choice(anchor: usize, neighbors: Seq<usize>) -> spec_fn(int) -> bool {
    |k: int| neighbors.contains(k as usize) || k != anchor
}

fn holds_place(places: &Vec<usize>, at: usize) -> (r: bool)
    ensures
        r == places@.contains(at),
{
    let mut i: usize = 0;
    while i < places.len()
        invariant
            i <= places.len(),
            forall|j: int| 0 <= j < i ==> #[trigger] places@[j] != at,
        decreases places.len() - i,
    {
        if places[i] == at {
            return true;
        }
        i += 1;
    }
    false
}

/// The images that are tried beside the first. `ids` are in the order of their names, and
/// `neighbors` lists those close to the first.
pub fn triad_candidates(
    ids: &Vec<AssetId>,
    recent: &Vec<AssetTriad>,
    anchor: usize,
    neighbors: &Vec<usize>,
) -> (r: Vec<usize>)
    requires
        recent@.len() <= usize::MAX / 3,
        anchor < ids@.len(),
        forall|i: int| 0 <= i < neighbors@.len() ==> (#[trigger] neighbors@[i]) < ids@.len(),
    ensures
        are_triad_candidates(r@, ids@, recent@, anchor, neighbors@),
{
    let fresh = keep_unseen(ids, recent, neighbors);
    if fresh.len() >= 2 {
        return fresh;
    }
    if neighbors.len() >= 2 {
        let r = copy_places(neighbors);
        return r;
    }
    let ghost wider_keep = wider_choice(ids@, recent@, anchor, neighbors@);
    let ghost widest_keep = widest_choice(anchor, neighbors@);
    let mut wider_flags: Vec<bool> = Vec::new();
    let mut widest_flags: Vec<bool> = Vec::new();
    let mut i: usize = 0;
    while i < ids.len()
        invariant
            i <= ids.len(),
            recent@.len() <= usize::MAX / 3,
            wider_flags.len() == i,
            widest_flags.len() == i,
            wider_keep == wider_choice(ids@, recent@, anchor, neighbors@),
            widest_keep == widest_choice(anchor, neighbors@),
            forall|j: int| 0 <= j < i ==> #[trigger] wider_flags@[j] == wider_keep(j),
            forall|j: int| 0 <= j < i ==> #[trigger] widest_flags@[j] == widest_keep(j),
        decreases ids.len() - i,
    {
        let close = holds_place(neighbors, i);
        let other = i != anchor;
        let wide = close || (other && recent_count(recent, &ids[i]) == 0);
        wider_flags.push(wide);
        widest_flags.push(close || other);
        i += 1;
    }
    let wider = pool::select(&wider_flags);
    proof {
        pool::lemma_selects_by_flags(wider@, wider_flags@, wider_keep);
    }
    let ghost all_wider = wider@;
    if wider.len() >= 2 {
        assert(pool::selects(all_wider, ids@.len() as int, wider_choice(ids@, recent@, anchor, neighbors@)));
        return wider;
    }
    let widest = pool::select(&widest_flags);
    proof {
        pool::lemma_selects_by_flags(widest@, widest_flags@, widest_keep);
        assert(pool::selects(all_wider, ids@.len() as int, wider_choice(ids@, recent@, anchor, neighbors@)));
    }
    widest
}

fn copy_places(places: &Vec<usize>) -> (r: Vec<usize>)
    ensures
        r@ == places@,
{
    let mut r: Vec<usize> = Vec::new();
    let mut i: usize = 0;
    while i < places.len()
        invariant
            i <= places.len(),
            r@ == places@.take(i as int),
        decreases places.len() - i,
    {
        r.push(places[i]);
        assert(places@.take(i + 1) =~= places@.take(i as int).push(places@[i as int]));
        i += 1;
    }
    assert(places@.take(i as int) =~= places@);
    r
}

/// Of how many candidates the others of a triad are taken.
pub open spec fn tried_candidates(candidates: Seq<usize>) -> int {
    if candidates.len() < EXPLORE_TRIAD_NEIGHBORS {
        candidates.len() as int
    } else {
        EXPLORE_TRIAD_NEIGHBORS as int
    }
}

/// The pairs of a candidate with each later one, for the first `n` candidates.
pub open spec fn candidate_pairs(candidates: Seq<usize>, n: int) -> Seq<(usize, usize)>
    decreases n,
{
    if n <= 0 {
        Seq::empty()
    } else {
        candidate_pairs(candidates, n - 1) + pairs_with(
            candidates,
            n - 1,
            tried_candidates(candidates),
        )
    }
}

/// The pairs of the candidate at `left` with each later one below `to`.
pub open spec fn pairs_with(candidates: Seq<usize>, left: int, to: int) -> Seq<(usize, usize)> {
    Seq::new(
        if to > left + 1 {
            (to - left - 1) as nat
        } else {
            0
        },
        |k: int| (candidates[left], candidates[left + 1 + k]),
    )
}

/// The pairs that are asked for beside the first image: each two of the closest eight candidates.
pub fn triad_pairs(candidates: &Vec<usize>) -> (r: Vec<(usize, usize)>)
    ensures
        r@ == candidate_pairs(candidates@, tried_candidates(candidates@)),
{
    let tried: usize = if candidates.len() < EXPLORE_TRIAD_NEIGHBORS {
        candidates.len()
    } else {
        EXPLORE_TRIAD_NEIGHBORS
    };
    let mut r: Vec<(usize, usize)> = Vec::new();
    let mut left: usize = 0;
    while left < tried
        invariant
            left <= tried,
            tried <= candidates.len(),
            tried == tried_candidates(candidates@),
            r@ == candidate_pairs(candidates@, left as int),
        decreases tried - left,
    {
        let ghost before = r@;
        let mut right: usize = left + 1;
        while right < tried
            invariant
                left < right <= tried,
                tried <= candidates.len(),
                r@ == before + pairs_with(candidates@, left as int, right as int),
            decreases tried - right,
        {
            r.push((candidates[left], candidates[right]));
            assert(pairs_with(candidates@, left as int, right + 1) =~= pairs_with(
                candidates@,
                left as int,
                right as int,
            ).push((candidates@[left as int], candidates@[right as int])));
            right += 1;
        }
        left += 1;
    }
    r
}

/// Three images for each pair of candidates beside a first image.
pub open spec fn triads_with(anchor: usize, pairs: Seq<(usize, usize)>) -> Seq<(usize, usize, usize)> {
    pairs.map_values(|pair: (usize, usize)| (anchor, pair.0, pair.1))
}

/// The triads of the first `n` anchors with the candidates of each.
pub open spec fn all_triads(anchors: Seq<usize>, lists: Seq<Seq<usize>>, n: int) -> Seq<(
    usize,
    usize,
    usize,
)>
    decreases n,
{
    if n <= 0 {
        Seq::empty()
    } else {
        all_triads(anchors, lists, n - 1) + triads_with(
            anchors[n - 1],
            candidate_pairs(lists[n - 1], tried_candidates(lists[n - 1])),
        )
    }
}

/// `lists` holds the candidates of each anchor.
pub open spec fn are_candidate_lists(
    lists: Seq<Seq<usize>>,
    ids: Seq<AssetId>,
    recent: Seq<AssetTriad>,
    anchors: Seq<usize>,
    neighbors: Seq<Vec<usize>>,
) -> bool {
    &&& lists.len() == anchors.len()
    &&& forall|a: int|
        0 <= a < anchors.len() ==> are_triad_candidates(
            #[trigger] lists[a],
            ids,
            recent,
            anchors[a],
            neighbors[a]@,
        )
}

/// The triads that could be asked for: for each anchor, each two of its closest candidates.
/// `neighbors` lists what is close to each anchor.
pub fn triad_contenders(
    ids: &Vec<AssetId>,
    recent: &Vec<AssetTriad>,
    anchors: &Vec<usize>,
    neighbors: &Vec<Vec<usize>>,
) -> (r: Vec<(usize, usize, usize)>)
    requires
        recent@.len() <= usize::MAX / 3,
        anchors@.len() == neighbors@.len(),
        forall|a: int| 0 <= a < anchors@.len() ==> (#[trigger] anchors@[a]) < ids@.len(),
        forall|a: int, i: int|
            0 <= a < neighbors@.len() && 0 <= i < neighbors@[a]@.len() ==> (#[trigger] neighbors@[a]@[i])
                < ids@.len(),
    ensures
        exists|lists: Seq<Seq<usize>>| #[trigger]
            are_candidate_lists(lists, ids@, recent@, anchors@, neighbors@) && r@ == all_triads(
                anchors@,
                lists,
                anchors@.len() as int,
            ),
{
    let ghost mut lists: Seq<Seq<usize>> = Seq::empty();
    let mut r: Vec<(usize, usize, usize)> = Vec::new();
    let mut a: usize = 0;
    while a < anchors.len()
        invariant
            a <= anchors.len(),
            recent@.len() <= usize::MAX / 3,
            anchors@.len() == neighbors@.len(),
            forall|k: int| 0 <= k < anchors@.len() ==> (#[trigger] anchors@[k]) < ids@.len(),
            forall|k: int, i: int|
                0 <= k < neighbors@.len() && 0 <= i < neighbors@[k]@.len() ==> (
                #[trigger] neighbors@[k]@[i]) < ids@.len(),
            lists.len() == a,
            forall|k: int|
                0 <= k < a ==> are_triad_candidates(
                    #[trigger] lists[k],
                    ids@,
                    recent@,
                    anchors@[k],
                    neighbors@[k]@,
                ),
            r@ == all_triads(anchors@, lists, a as int),
        decreases anchors.len() - a,
    {
        let anchor = anchors[a];
        let candidates = triad_candidates(ids, recent, anchor, &neighbors[a]);
        let pairs = triad_pairs(&candidates);
        let ghost before = r@;
        let ghost longer = lists.push(candidates@);
        proof {
            lemma_all_triads_prefix(anchors@, lists, longer, a as int);
        }
        let mut p: usize = 0;
        while p < pairs.len()
            invariant
                p <= pairs.len(),
                r@ == before + triads_with(anchor, pairs@.take(p as int)),
            decreases pairs.len() - p,
        {
            let (left, right) = pairs[p];
            r.push((anchor, left, right));
            assert(triads_with(anchor, pairs@.take(p + 1)) =~= triads_with(
                anchor,
                pairs@.take(p as int),
            ).push((anchor, left, right)));
            p += 1;
        }
        assert(pairs@.take(p as int) =~= pairs@);
        proof {
            lists = longer;
        }
        a += 1;
    }
    proof {
        assert(are_candidate_lists(lists, ids@, recent@, anchors@, neighbors@));
    }
    r
}

proof fn lemma_all_triads_prefix(anchors: Seq<usize>, a: Seq<Seq<usize>>, b: Seq<Seq<usize>>, n: int)
    requires
        0 <= n <= a.len(),
        n <= b.len(),
        forall|k: int| 0 <= k < n ==> #[trigger] a[k] == b[k],
    ensures
        all_triads(anchors, a, n) == all_triads(anchors, b, n),
    decreases n,
{
    if n > 0 {
        lemma_all_triads_prefix(anchors, a, b, n - 1);
        assert(a[n - 1] == b[n - 1]);
    }
}

/// The triad that is asked for: the one that was picked from the shortlist, else three that chance
/// decides. `pick` is a place in the shortlist, or none where the scores decided nothing.
pub fn choose_similarity_triad(
    ids: &Vec<AssetId>,
    recent: &Vec<AssetTriad>,
    contenders: &Vec<(usize, usize, usize)>,
    shortlist: &Vec<usize>,
    pick: Option<usize>,
) -> (r: Option<(usize, usize, usize)>)
    requires
        recent@.len() <= usize::MAX / 3,
        forall|i: int| 0 <= i < shortlist@.len() ==> (#[trigger] shortlist@[i]) < contenders@.len(),
        pick matches Some(i) ==> i < shortlist@.len(),
    ensures
        ids@.len() < 3 ==> r is None,
        ids@.len() >= 3 ==> match pick {
            Some(i) => r == Some(contenders@[shortlist@[i as int] as int]),
            None => r matches Some((a, b, c)) && a != b && b != c && a != c && fallback_of(
                ids@,
                recent@,
            ).contains(a) && fallback_of(ids@, recent@).contains(b) && fallback_of(
                ids@,
                recent@,
            ).contains(c),
        },
{
    if ids.len() < 3 {
        return None;
    }
    match pick {
        Some(i) => Some(contenders[shortlist[i]]),
        None => draw_fallback_triad(ids, recent),
    }
}

/// What triads are ordered by: the highest score first.
pub open spec fn score_keys(scores: Seq<Scalar>) -> Seq<Seq<i128>> {
    scores.map_values(|score: Scalar| seq![score_place(score)])
}

/// The place of a score from the highest down.
pub open spec fn score_place(score: Scalar) -> i128 {
    (-score.place()) as i128
}

/// The triads that chance decides between: the dozen with the highest scores.
pub fn triad_shortlist(scores: &Vec<Scalar>) -> (r: Vec<usize>)
    ensures
        rank::are_leaders(r@, score_keys(scores@), EXPLORE_TRIAD_TOP_K as int),
        forall|i: int| 0 <= i < r@.len() ==> (#[trigger] r@[i]) < scores@.len(),
{
    let mut keys: Vec<Vec<i128>> = Vec::new();
    let mut i: usize = 0;
    while i < scores.len()
        invariant
            i <= scores.len(),
            keys.len() == i,
            forall|j: int| 0 <= j < i ==> (#[trigger] keys@[j])@ == seq![score_place(scores@[j])],
        decreases scores.len() - i,
    {
        let place: i128 = 0 - scores[i].place_key();
        let key = vec![place];
        assert(key@ =~= seq![score_place(scores@[i as int])]);
        keys.push(key);
        i += 1;
    }
    assert(rank::key_views(keys@) =~= score_keys(scores@));
    rank::leading(&keys, EXPLORE_TRIAD_TOP_K)
}

/// The images that a triad is drawn from where no score decides: those not compared lately where
/// there are three, else all.
pub open spec fn fallback_of(ids: Seq<AssetId>, recent: Seq<AssetTriad>) -> Seq<usize> {
    let all = Seq::new(ids.len(), |i: int| i as usize);
    let fresh = unseen(ids, recent, all);
    if fresh.len() >= 3 {
        fresh
    } else {
        all
    }
}

/// Three images that chance decides, where no score does. There are none where there are not three
/// images.
pub fn draw_fallback_triad(ids: &Vec<AssetId>, recent: &Vec<AssetTriad>) -> (r: Option<(
    usize,
    usize,
    usize,
)>)
    requires
        recent@.len() <= usize::MAX / 3,
    ensures
        match r {
            None => ids@.len() < 3,
            Some((a, b, c)) => {
                &&& ids@.len() >= 3
                &&& a != b && b != c && a != c
                &&& fallback_of(ids@, recent@).contains(a)
                &&& fallback_of(ids@, recent@).contains(b)
                &&& fallback_of(ids@, recent@).contains(c)
            },
        },
{
    if ids.len() < 3 {
        return None;
    }
    let all = places_below(ids.len());
    let fresh = keep_unseen(ids, recent, &all);
    proof {
        assert(all@ =~= Seq::new(ids@.len(), |i: int| i as usize));
        assert(all@.no_duplicates());
        lemma_filter_keeps_apart(all@, |at: usize| is_unseen(ids@, recent@, at));
    }
    let from = if fresh.len() >= 3 {
        fresh
    } else {
        all
    };
    let ghost members = from@;
    let order = shuffled(from);
    proof {
        assert(order@.to_set().contains(order@[0]));
        assert(order@.to_set().contains(order@[1]));
        assert(order@.to_set().contains(order@[2]));
        assert(members.contains(order@[0]));
        assert(members.contains(order@[1]));
        assert(members.contains(order@[2]));
    }
    Some((order[0], order[1], order[2]))
}

proof fn lemma_filter_keeps_apart(s: Seq<usize>, keep: spec_fn(usize) -> bool)
    requires
        s.no_duplicates(),
    ensures
        s.filter(keep).no_duplicates(),
    decreases s.len(),
{
    reveal(Seq::filter);
    if s.len() > 0 {
        let rest = s.drop_last();
        lemma_filter_keeps_apart(rest, keep);
        let kept = rest.filter(keep);
        assert forall|i: int| 0 <= i < kept.len() implies kept[i] != s.last() by {
            rest.lemma_filter_contains_rev(keep, kept[i]);
            let j = choose|j: int| 0 <= j < rest.len() && rest[j] == kept[i];
            assert(s[j] != s[s.len() - 1]);
        }
    }
}

/// The page of a triad, or the map where there is none.
pub fn explore_target(
    triad: Option<AssetTriad>,
    focus_id: Option<&AssetId>,
    map_mode: ExploreMapMode,
) -> (r: RedirectTarget)
    ensures
        r == match triad {
            None => RedirectTarget::ExploreRoot { map_mode },
            Some(triad) => RedirectTarget::ExploreTriad {
                asset_a: triad.a,
                asset_b: triad.b,
                asset_c: triad.c,
                focus_id: match focus_id {
                    None => None,
                    Some(id) => Some(*id),
                },
                map_mode,
            },
        },
{
    match triad {
        None => RedirectTarget::ExploreRoot { map_mode },
        Some(triad) => RedirectTarget::ExploreTriad {
            asset_a: triad.a,
            asset_b: triad.b,
            asset_c: triad.c,
            focus_id: match focus_id {
                None => None,
                Some(id) => Some(id.clone()),
            },
            map_mode,
        },
    }
}

/// Whether a comparison can be learned from: all three images have embeddings.
pub fn can_train(embedded: &TextSet, triad: &AssetTriad) -> (r: bool)
    ensures
        r == (embedded@.contains(triad.a@) && embedded@.contains(triad.b@) && embedded@.contains(
            triad.c@,
        )),
{
    embedded.contains(&triad.a.0) && embedded.contains(&triad.b.0) && embedded.contains(&triad.c.0)
}

/// An image is never asked to be compared with itself: the candidates beside the first image are
/// other images, provided those close to it are.
pub proof fn triads_are_of_three_images(
    ids: Seq<AssetId>,
    recent: Seq<AssetTriad>,
    anchor: usize,
    neighbors: Seq<usize>,
    r: Seq<usize>,
)
    requires
        are_triad_candidates(r, ids, recent, anchor, neighbors),
        neighbors.no_duplicates(),
        !neighbors.contains(anchor),
        ids.len() <= usize::MAX,
    ensures
        !r.contains(anchor),
        r.no_duplicates(),
{
    let fresh = unseen(ids, recent, neighbors);
    let keep_fresh = |at: usize| is_unseen(ids, recent, at);
    if fresh.len() >= 2 {
        lemma_filter_keeps_apart(neighbors, keep_fresh);
        if r.contains(anchor) {
            neighbors.lemma_filter_contains_rev(keep_fresh, anchor);
        }
    } else if neighbors.len() >= 2 {
    } else {
        let wider = choose|wider: Seq<usize>|
            {
                &&& #[trigger] pool::selects(wider, ids.len() as int, wider_choice(ids, recent, anchor, neighbors))
                &&& if wider.len() >= 2 {
                    r == wider
                } else {
                    pool::selects(r, ids.len() as int, widest_choice(anchor, neighbors))
                }
            };
        let keep = if wider.len() >= 2 {
            wider_choice(ids, recent, anchor, neighbors)
        } else {
            widest_choice(anchor, neighbors)
        };
        assert(pool::selects(r, ids.len() as int, keep));
        if r.contains(anchor) {
            let j = choose|j: int| 0 <= j < r.len() && r[j] == anchor;
            assert(keep(r[j] as int));
        }
        assert forall|i: int, j: int| 0 <= i < j < r.len() implies r[i] != r[j] by {
            assert(r[i] < r[j]);
        }
    }
}

/// Images close to another do not repeat, and the image itself is not among them.
pub proof fn neighbors_are_other_images(
    order: Seq<usize>,
    ids: Seq<AssetId>,
    anchor: usize,
    distances: Seq<Option<Scalar>>,
    limit: int,
)
    requires
        is_neighbor_order(order, ids, ids[anchor as int]@, distances, false),
        anchor < ids.len(),
        limit >= 0,
    ensures
        first_places(order, limit).no_duplicates(),
        !first_places(order, limit).contains(anchor),
{
    let keep = |i: int| counts_as_neighbor(ids, ids[anchor as int]@, distances, false, i);
    let key = |i: int| neighbor_key(ids, distances, i);
    let shown = first_places(order, limit);
    assert forall|i: int, j: int| 0 <= i < j < shown.len() implies shown[i] != shown[j] by {
        assert(rank::comes_first(key, order[i] as int, order[j] as int));
        rank::lemma_lex_order(key(order[i] as int), key(order[j] as int), key(order[i] as int));
    }
    if shown.contains(anchor) {
        let j = choose|j: int| 0 <= j < shown.len() && shown[j] == anchor;
        assert(keep(order[j] as int));
    }
}

} // verus!
