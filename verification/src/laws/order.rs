//! Orders, and what comes first in them.
use crate::rank;
use crate::scalar::Scalar;
use vstd::prelude::*;

verus! {

/// The text stands before the other in a dictionary: at the first character in which they differ it
/// has the smaller one, or it ends there.
pub open spec fn text_before(a: Seq<char>, b: Seq<char>) -> bool {
    exists|k: int|
        {
            &&& 0 <= k <= a.len()
            &&& k < b.len()
            &&& #[trigger] a.take(k) == b.take(k)
            &&& k == a.len() || a[k] < b[k]
        }
}

proof fn lemma_text_before_first(a: Seq<char>, b: Seq<char>)
    requires
        a.len() > 0,
        b.len() > 0,
    ensures
        text_before(a, b) <==> a[0] < b[0] || (a[0] == b[0] && text_before(a.skip(1), b.skip(1))),
{
    let (x, y) = (a.skip(1), b.skip(1));
    if text_before(a, b) {
        let k = choose|k: int|
            {
                &&& 0 <= k <= a.len()
                &&& k < b.len()
                &&& #[trigger] a.take(k) == b.take(k)
                &&& k == a.len() || a[k] < b[k]
            };
        if k > 0 {
            assert(a.take(k)[0] == b.take(k)[0]);
            assert(x.take(k - 1) =~= a.take(k).skip(1));
            assert(y.take(k - 1) =~= b.take(k).skip(1));
            assert(x.take(k - 1) == y.take(k - 1));
        }
    }
    if a[0] < b[0] {
        assert(a.take(0) =~= b.take(0));
    }
    if a[0] == b[0] && text_before(x, y) {
        let k = choose|k: int|
            {
                &&& 0 <= k <= x.len()
                &&& k < y.len()
                &&& #[trigger] x.take(k) == y.take(k)
                &&& k == x.len() || x[k] < y[k]
            };
        assert(a.take(k + 1) =~= seq![a[0]] + x.take(k));
        assert(b.take(k + 1) =~= seq![b[0]] + y.take(k));
        assert(a.take(k + 1) == b.take(k + 1));
    }
}

proof fn lemma_codes_order_characters(c: char, d: char)
    ensures
        c as u32 as i128 == d as u32 as i128 <==> c == d,
        (c as u32 as i128) < (d as u32 as i128) <==> c < d,
{
}

/// Texts are put in the order of a dictionary.
pub proof fn texts_are_ordered_as_in_a_dictionary(a: Seq<char>, b: Seq<char>)
    ensures
        rank::lex_lt(rank::text_key(a), rank::text_key(b)) <==> text_before(a, b),
        rank::text_key(a) == rank::text_key(b) <==> a == b,
    decreases a.len(),
{
    let (x, y) = (rank::text_key(a), rank::text_key(b));
    if x == y {
        assert(x.len() == a.len() && y.len() == b.len());
        assert forall|i: int| 0 <= i < a.len() implies #[trigger] a[i] == b[i] by {
            assert(x[i] == y[i]);
            lemma_codes_order_characters(a[i], b[i]);
        }
        assert(a =~= b);
    }
    if b.len() == 0 {
    } else if a.len() == 0 {
        assert(a.take(0) =~= b.take(0));
    } else {
        texts_are_ordered_as_in_a_dictionary(a.skip(1), b.skip(1));
        lemma_text_before_first(a, b);
        assert(x.skip(1) =~= rank::text_key(a.skip(1)));
        assert(y.skip(1) =~= rank::text_key(b.skip(1)));
        lemma_codes_order_characters(a[0], b[0]);
    }
}

/// A key of integers stands before another by the first integer in which they differ.
pub proof fn keys_are_compared_from_the_front(a: Seq<i128>, b: Seq<i128>, k: int)
    requires
        0 <= k < a.len(),
        k < b.len(),
        forall|i: int| 0 <= i < k ==> #[trigger] a[i] == b[i],
        a[k] != b[k],
    ensures
        rank::lex_lt(a, b) <==> a[k] < b[k],
    decreases k,
{
    if k > 0 {
        assert(a[0] == b[0]);
        let (x, y) = (a.skip(1), b.skip(1));
        assert forall|i: int| 0 <= i < k - 1 implies #[trigger] x[i] == y[i] by {
            assert(a[i + 1] == b[i + 1]);
        }
        keys_are_compared_from_the_front(x, y, k - 1);
    }
}

/// Keys that begin alike are compared by what follows.
pub proof fn common_beginnings_do_not_matter(front: Seq<i128>, a: Seq<i128>, b: Seq<i128>)
    ensures
        rank::lex_lt(front + a, front + b) <==> rank::lex_lt(a, b),
        front + a == front + b <==> a == b,
    decreases front.len(),
{
    if front.len() == 0 {
        assert(front + a =~= a);
        assert(front + b =~= b);
    } else {
        let rest = front.skip(1);
        common_beginnings_do_not_matter(rest, a, b);
        assert((front + a).skip(1) =~= rest + a);
        assert((front + b).skip(1) =~= rest + b);
        if front + a == front + b {
            assert((front + a).skip(1) == (front + b).skip(1));
        }
    }
}

/// Numbers keep their order when they are put in the order of all patterns, and equal patterns have
/// equal places.
pub proof fn numbers_are_placed_by_size(a: Scalar, b: Scalar)
    ensures
        a.below(b) ==> a.place() < b.place(),
        a.place() == b.place() <==> a.bits == b.bits,
        -0x8000_0000 <= a.place() < 0x8000_0000,
{
}

/// A number is below another exactly where it is the smaller of two numbers; the two zeros are equal,
/// and the largest patterns of each sign stand for no number.
pub proof fn numbers_are_compared_by_size(a: Scalar, b: Scalar)
    ensures
        a.nan() <==> (0x7f80_0000 < a.bits < 0x8000_0000 || 0xff80_0000 < a.bits),
        a.finite() <==> (a.bits < 0x7f80_0000 || 0x8000_0000 <= a.bits < 0xff80_0000),
        a.below(b) ==> !b.below(a) && !a.reaches(b) && b.reaches(a),
        !a.nan() && !b.nan() ==> a.below(b) || a.reaches(b),
        a.nan() || b.nan() ==> !a.below(b) && !a.reaches(b),
        a.bits < 0x8000_0000 && b.bits < 0x8000_0000 && !a.nan() && !b.nan() ==> (a.below(b) <==> a.bits
            < b.bits),
        a.bits >= 0x8000_0000 && b.bits >= 0x8000_0000 && !a.nan() && !b.nan() ==> (a.below(b)
            <==> a.bits > b.bits),
        a.bits > 0x8000_0000 && b.bits < 0x8000_0000 && !a.nan() && !b.nan() ==> a.below(b),
        (Scalar { bits: 0x8000_0000 }).order() == (Scalar { bits: 0 }).order(),
        a.magnitude() < 0x8000_0000,
        a.bits < 0x8000_0000 ==> a.magnitude() == a.bits,
        a.bits >= 0x8000_0000 ==> a.magnitude() + 0x8000_0000 == a.bits,
{
}

/// A bounded number is the number itself within the bounds, the nearer bound outside them, and the
/// fallback where it is not finite.
pub proof fn bounds_hold_what_is_outside(x: Scalar, low: Scalar, high: Scalar, fallback: Scalar)
    requires
        low.finite(),
        high.finite(),
        low.order() <= high.order(),
    ensures
        ({
            let r = x.spec_bounded(low, high, fallback);
            &&& !x.finite() ==> r == fallback
            &&& x.finite() && low.order() <= x.order() <= high.order() ==> r == x
            &&& x.finite() && x.order() < low.order() ==> r == low
            &&& x.finite() && x.order() > high.order() ==> r == high
        }),
{
}

/// A list without repetitions whose items are all among the first `n` of another is no longer than
/// `n`.
pub proof fn lemma_no_more_than_there_are(items: Seq<usize>, all: Seq<usize>, n: int)
    requires
        items.no_duplicates(),
        0 <= n <= all.len(),
        forall|i: int| 0 <= i < items.len() ==> all.take(n).contains(#[trigger] items[i]),
    ensures
        items.len() <= n,
{
    let some = all.take(n);
    items.unique_seq_to_set();
    some.lemma_cardinality_of_set();
    assert(items.to_set().subset_of(some.to_set())) by {
        assert forall|x: usize| items.to_set().contains(x) implies some.to_set().contains(x) by {
            let i = choose|i: int| 0 <= i < items.len() && items[i] == x;
            assert(some.contains(items[i]));
        }
    }
    vstd::set_lib::lemma_len_subset(items.to_set(), some.to_set());
}

/// `n` other items come before the item at `at`.
pub open spec fn outdone(keys: Seq<Seq<i128>>, at: int, n: int) -> bool {
    exists|rivals: Seq<usize>|
        {
            &&& #[trigger] rivals.len() == n
            &&& rivals.no_duplicates()
            &&& forall|i: int|
                0 <= i < rivals.len() ==> (#[trigger] rivals[i]) < keys.len() && rank::precedes(
                    keys,
                    rivals[i] as int,
                    at,
                )
        }
}

/// The leading items are those before which fewer than `limit` others come.
pub proof fn leaders_are_not_outdone(leaders: Seq<usize>, keys: Seq<Seq<i128>>, limit: int, at: usize)
    requires
        rank::are_leaders(leaders, keys, limit),
        0 <= limit,
        at < keys.len(),
    ensures
        leaders.contains(at) <==> !outdone(keys, at as int, limit),
        leaders.no_duplicates(),
        leaders.len() <= limit,
{
    let order = choose|order: Seq<usize>| #[trigger]
        rank::is_ranking(order, keys) && leaders == order.take(
            if limit < order.len() {
                limit
            } else {
                order.len() as int
            },
        );
    let n: int = if limit < order.len() {
        limit
    } else {
        order.len() as int
    };
    assert forall|i: int, j: int| 0 <= i < leaders.len() && 0 <= j < leaders.len() && i != j implies leaders[i]
        != leaders[j] by {
        if i < j {
            rank::lemma_ranking_distinct(order, keys, i, j);
        } else {
            rank::lemma_ranking_distinct(order, keys, j, i);
        }
    }
    assert(order.contains(at));
    let p = choose|p: int| 0 <= p < order.len() && order[p] == at;
    if p < n {
        assert(leaders[p] == at);
        if outdone(keys, at as int, limit) {
            let rivals = choose|rivals: Seq<usize>|
                {
                    &&& #[trigger] rivals.len() == limit
                    &&& rivals.no_duplicates()
                    &&& forall|i: int|
                        0 <= i < rivals.len() ==> (#[trigger] rivals[i]) < keys.len() && rank::precedes(
                            keys,
                            rivals[i] as int,
                            at as int,
                        )
                };
            assert forall|i: int| 0 <= i < rivals.len() implies order.take(p).contains(
                #[trigger] rivals[i],
            ) by {
                assert(order.contains(rivals[i]));
                let q = choose|q: int| 0 <= q < order.len() && order[q] == rivals[i];
                rank::lemma_lex_order(keys[at as int], keys[rivals[i] as int], keys[at as int]);
                if q > p {
                    assert(rank::precedes(keys, order[p] as int, order[q] as int));
                }
                assert(order.take(p)[q] == rivals[i]);
            }
            lemma_no_more_than_there_are(rivals, order, p);
        }
    } else {
        let rivals = order.take(limit);
        assert forall|i: int| 0 <= i < rivals.len() implies (#[trigger] rivals[i]) < keys.len()
            && rank::precedes(keys, rivals[i] as int, at as int) by {
            assert(rank::precedes(keys, order[i] as int, order[p] as int));
        }
        assert forall|i: int, j: int|
            0 <= i < rivals.len() && 0 <= j < rivals.len() && i != j implies rivals[i] != rivals[j] by {
            if i < j {
                rank::lemma_ranking_distinct(order, keys, i, j);
            } else {
                rank::lemma_ranking_distinct(order, keys, j, i);
            }
        }
        assert(rivals.len() == limit);
        assert(outdone(keys, at as int, limit));
        if leaders.contains(at) {
            let q = choose|q: int| 0 <= q < leaders.len() && leaders[q] == at;
            rank::lemma_ranking_distinct(order, keys, q, p);
        }
    }
}

} // verus!
