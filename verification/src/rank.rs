//! Stable ordering of items by composite integer keys.
//!
//! A key is a sequence of integers, compared from the first to the last; a key that is a prefix
//! of another comes first. Items with equal keys keep the order in which they came.
use vstd::prelude::*;

verus! {

/// `a` is lexicographically below `b`.
pub open spec fn lex_lt(a: Seq<i128>, b: Seq<i128>) -> bool
    decreases a.len(),
{
    if b.len() == 0 {
        false
    } else if a.len() == 0 {
        true
    } else if a[0] != b[0] {
        a[0] < b[0]
    } else {
        lex_lt(a.skip(1), b.skip(1))
    }
}

/// Item `a` comes before item `b`: by its key, and among equal keys by its position.
pub open spec fn precedes(keys: Seq<Seq<i128>>, a: int, b: int) -> bool {
    lex_lt(keys[a], keys[b]) || (keys[a] == keys[b] && a < b)
}

/// `order` lists the positions of `keys`, each once, from the first item to the last.
pub open spec fn is_ranking(order: Seq<usize>, keys: Seq<Seq<i128>>) -> bool {
    &&& order.len() == keys.len()
    &&& forall|i: int| 0 <= i < order.len() ==> (#[trigger] order[i]) < keys.len()
    &&& forall|i: int, j: int|
        0 <= i < j < order.len() ==> precedes(keys, #[trigger] order[i] as int, #[trigger] order[j] as int)
    &&& forall|k: usize| k < keys.len() ==> #[trigger] order.contains(k)
}

/// The keys that `keys` holds.
pub open spec fn key_views(keys: Seq<Vec<i128>>) -> Seq<Seq<i128>> {
    keys.map_values(|k: Vec<i128>| k@)
}

proof fn lemma_lex_irreflexive(a: Seq<i128>)
    ensures
        !lex_lt(a, a),
    decreases a.len(),
{
    if a.len() > 0 {
        lemma_lex_irreflexive(a.skip(1));
    }
}

proof fn lemma_lex_total(a: Seq<i128>, b: Seq<i128>)
    ensures
        a == b || lex_lt(a, b) || lex_lt(b, a),
    decreases a.len(),
{
    if a.len() > 0 && b.len() > 0 && a[0] == b[0] {
        lemma_lex_total(a.skip(1), b.skip(1));
        if a.skip(1) == b.skip(1) {
            assert(a =~= seq![a[0]] + a.skip(1));
            assert(b =~= seq![b[0]] + b.skip(1));
        }
    } else if a.len() == 0 && b.len() == 0 {
        assert(a =~= b);
    }
}

proof fn lemma_lex_transitive(a: Seq<i128>, b: Seq<i128>, c: Seq<i128>)
    requires
        lex_lt(a, b),
        lex_lt(b, c),
    ensures
        lex_lt(a, c),
    decreases a.len(),
{
    if a.len() > 0 && a[0] == b[0] && b[0] == c[0] {
        lemma_lex_transitive(a.skip(1), b.skip(1), c.skip(1));
    }
}

proof fn lemma_precedes_total(keys: Seq<Seq<i128>>, a: int, b: int)
    ensures
        a != b ==> precedes(keys, a, b) || precedes(keys, b, a),
        !(precedes(keys, a, b) && precedes(keys, b, a)),
{
    lemma_lex_total(keys[a], keys[b]);
    lemma_lex_irreflexive(keys[a]);
    if lex_lt(keys[a], keys[b]) && lex_lt(keys[b], keys[a]) {
        lemma_lex_transitive(keys[a], keys[b], keys[a]);
    }
}

proof fn lemma_precedes_transitive(keys: Seq<Seq<i128>>, a: int, b: int, c: int)
    requires
        precedes(keys, a, b),
        precedes(keys, b, c),
    ensures
        precedes(keys, a, c),
{
    if lex_lt(keys[a], keys[b]) && lex_lt(keys[b], keys[c]) {
        lemma_lex_transitive(keys[a], keys[b], keys[c]);
    }
}

/// No item of `order` comes after a later one.
spec fn ascending(order: Seq<usize>, keys: Seq<Seq<i128>>) -> bool {
    forall|i: int, j: int|
        0 <= i < j < order.len() ==> !precedes(keys, #[trigger] order[j] as int, #[trigger] order[i] as int)
}

spec fn in_range(order: Seq<usize>, n: nat) -> bool {
    forall|i: int| 0 <= i < order.len() ==> (#[trigger] order[i]) < n
}

/// Compares two keys.
pub fn key_below(a: &Vec<i128>, b: &Vec<i128>) -> (below: bool)
    ensures
        below == lex_lt(a@, b@),
{
    let mut i: usize = 0;
    proof {
        assert(a@.skip(0) =~= a@);
        assert(b@.skip(0) =~= b@);
    }
    while i < a.len() && i < b.len()
        invariant
            i <= a.len(),
            i <= b.len(),
            lex_lt(a@, b@) == lex_lt(a@.skip(i as int), b@.skip(i as int)),
        decreases a.len() - i,
    {
        proof {
            assert(a@.skip(i as int).skip(1) =~= a@.skip(i + 1));
            assert(b@.skip(i as int).skip(1) =~= b@.skip(i + 1));
        }
        if a[i] != b[i] {
            return a[i] < b[i];
        }
        i += 1;
    }
    i < b.len()
}

/// Whether item `a` comes before item `b`.
fn comes_before(keys: &Vec<Vec<i128>>, a: usize, b: usize) -> (before: bool)
    requires
        a < keys.len(),
        b < keys.len(),
    ensures
        before == precedes(key_views(keys@), a as int, b as int),
{
    if key_below(&keys[a], &keys[b]) {
        return true;
    }
    proof {
        lemma_lex_total(keys@[a as int]@, keys@[b as int]@);
        lemma_lex_irreflexive(keys@[a as int]@);
    }
    if key_below(&keys[b], &keys[a]) {
        return false;
    }
    a < b
}

proof fn lemma_push_ascending(order: Seq<usize>, x: usize, keys: Seq<Seq<i128>>)
    requires
        ascending(order, keys),
        forall|i: int| 0 <= i < order.len() ==> !precedes(keys, x as int, #[trigger] order[i] as int),
    ensures
        ascending(order.push(x), keys),
{
}

/// Merges two ascending lists.
fn merge(keys: &Vec<Vec<i128>>, left: &Vec<usize>, right: &Vec<usize>) -> (merged: Vec<usize>)
    requires
        in_range(left@, keys@.len()),
        in_range(right@, keys@.len()),
        ascending(left@, key_views(keys@)),
        ascending(right@, key_views(keys@)),
    ensures
        in_range(merged@, keys@.len()),
        ascending(merged@, key_views(keys@)),
        merged@.to_multiset() == left@.to_multiset().add(right@.to_multiset()),
{
    let ghost kv = key_views(keys@);
    let mut merged: Vec<usize> = Vec::new();
    let mut i: usize = 0;
    let mut j: usize = 0;
    proof {
        broadcast use {vstd::multiset::group_multiset_axioms, vstd::seq_lib::group_to_multiset_ensures};

        assert(left@.take(0) =~= Seq::<usize>::empty());
        assert(right@.take(0) =~= Seq::<usize>::empty());
        assert(merged@.to_multiset() =~= left@.take(0).to_multiset().add(right@.take(0).to_multiset()));
    }
    while i < left.len() || j < right.len()
        invariant
            i <= left.len(),
            j <= right.len(),
            kv == key_views(keys@),
            in_range(left@, keys@.len()),
            in_range(right@, keys@.len()),
            in_range(merged@, keys@.len()),
            ascending(left@, kv),
            ascending(right@, kv),
            ascending(merged@, kv),
            forall|m: int, k: int|
                0 <= m < merged.len() && i <= k < left.len() ==> !precedes(
                    kv,
                    #[trigger] left@[k] as int,
                    #[trigger] merged@[m] as int,
                ),
            forall|m: int, k: int|
                0 <= m < merged.len() && j <= k < right.len() ==> !precedes(
                    kv,
                    #[trigger] right@[k] as int,
                    #[trigger] merged@[m] as int,
                ),
            merged@.to_multiset() == left@.take(i as int).to_multiset().add(
                right@.take(j as int).to_multiset(),
            ),
        decreases left.len() - i + right.len() - j,
    {
        let take_left = if i == left.len() {
            false
        } else if j == right.len() {
            true
        } else {
            !comes_before(keys, right[j], left[i])
        };
        if take_left {
            let x = left[i];
            proof {
                broadcast use {vstd::multiset::group_multiset_axioms, vstd::seq_lib::group_to_multiset_ensures};

                assert(left@.take(i + 1) =~= left@.take(i as int).push(x));
                assert forall|k: int| j <= k < right.len() implies !precedes(
                    kv,
                    #[trigger] right@[k] as int,
                    x as int,
                ) by {
                    if k > j && precedes(kv, right@[k] as int, x as int) {
                        lemma_weak_chain(kv, x as int, right@[j as int] as int, right@[k] as int);
                    }
                }
                lemma_push_ascending(merged@, x, kv);
                assert forall|k: int| i < k < left.len() implies !precedes(
                    kv,
                    #[trigger] left@[k] as int,
                    x as int,
                ) by {}
                assert(merged@.push(x).to_multiset() =~= left@.take(i + 1).to_multiset().add(
                    right@.take(j as int).to_multiset(),
                ));
            }
            merged.push(x);
            i += 1;
        } else {
            let x = right[j];
            proof {
                broadcast use {vstd::multiset::group_multiset_axioms, vstd::seq_lib::group_to_multiset_ensures};

                assert(right@.take(j + 1) =~= right@.take(j as int).push(x));
                assert forall|k: int| i <= k < left.len() implies !precedes(
                    kv,
                    #[trigger] left@[k] as int,
                    x as int,
                ) by {
                    lemma_precedes_total(kv, x as int, left@[i as int] as int);
                    if k > i && precedes(kv, left@[k] as int, x as int) {
                        lemma_weak_chain(kv, x as int, left@[i as int] as int, left@[k] as int);
                    }
                }
                lemma_push_ascending(merged@, x, kv);
                assert(merged@.push(x).to_multiset() =~= left@.take(i as int).to_multiset().add(
                    right@.take(j + 1).to_multiset(),
                ));
            }
            merged.push(x);
            j += 1;
        }
    }
    proof {
        assert(left@.take(left@.len() as int) =~= left@);
        assert(right@.take(right@.len() as int) =~= right@);
    }
    merged
}

/// Where `b` is not before `a` and `c` is not before `b`, `c` is not before `a`.
proof fn lemma_weak_chain(keys: Seq<Seq<i128>>, a: int, b: int, c: int)
    requires
        !precedes(keys, b, a),
        !precedes(keys, c, b),
    ensures
        !precedes(keys, c, a),
{
    lemma_precedes_total(keys, a, b);
    lemma_precedes_total(keys, b, c);
    lemma_precedes_total(keys, a, c);
    if precedes(keys, c, a) {
        if a != b {
            lemma_precedes_transitive(keys, c, a, b);
        }
    }
}

fn merge_sort(keys: &Vec<Vec<i128>>, items: Vec<usize>) -> (sorted: Vec<usize>)
    requires
        in_range(items@, keys@.len()),
    ensures
        in_range(sorted@, keys@.len()),
        ascending(sorted@, key_views(keys@)),
        sorted@.to_multiset() == items@.to_multiset(),
    decreases items.len(),
{
    if items.len() <= 1 {
        return items;
    }
    let ghost whole = items@;
    let mut left = items;
    let half: usize = left.len() / 2;
    let right = left.split_off(half);
    proof {
        vstd::seq_lib::lemma_multiset_commutative(left@, right@);
        assert(left@ + right@ =~= whole);
    }
    let left = merge_sort(keys, left);
    let right = merge_sort(keys, right);
    merge(keys, &left, &right)
}

/// The positions of `keys` in order.
pub fn ranking(keys: &Vec<Vec<i128>>) -> (order: Vec<usize>)
    ensures
        is_ranking(order@, key_views(keys@)),
{
    let ghost kv = key_views(keys@);
    let mut items: Vec<usize> = Vec::new();
    let mut i: usize = 0;
    while i < keys.len()
        invariant
            i <= keys.len(),
            items@ == Seq::new(i as nat, |k: int| k as usize),
        decreases keys.len() - i,
    {
        items.push(i);
        i += 1;
    }
    let ghost start = items@;
    let order = merge_sort(keys, items);
    proof {
        lemma_order_of_distinct(order@, start, kv);
    }
    order
}

proof fn lemma_order_of_distinct(order: Seq<usize>, start: Seq<usize>, keys: Seq<Seq<i128>>)
    requires
        start == Seq::new(keys.len(), |k: int| k as usize),
        keys.len() <= usize::MAX,
        order.to_multiset() == start.to_multiset(),
        in_range(order, keys.len()),
        ascending(order, keys),
    ensures
        is_ranking(order, keys),
{
    broadcast use {vstd::multiset::group_multiset_axioms, vstd::seq_lib::group_to_multiset_ensures};

    vstd::seq_lib::to_multiset_len(order);
    vstd::seq_lib::to_multiset_len(start);
    assert(order.len() == start.len());
    assert(start.no_duplicates());
    start.lemma_multiset_has_no_duplicates();
    order.lemma_multiset_has_no_duplicates_conv();
    assert forall|i: int, j: int| 0 <= i < j < order.len() implies precedes(
        keys,
        #[trigger] order[i] as int,
        #[trigger] order[j] as int,
    ) by {
        assert(order[i] != order[j]);
        lemma_precedes_total(keys, order[i] as int, order[j] as int);
    }
    assert forall|k: usize| k < keys.len() implies #[trigger] order.contains(k) by {
        assert(start[k as int] == k);
        assert(start.contains(k));
        assert(start.to_multiset().count(k) > 0);
    }
}

/// No item occurs twice in an order.
pub proof fn lemma_ranking_distinct(order: Seq<usize>, keys: Seq<Seq<i128>>, i: int, j: int)
    requires
        is_ranking(order, keys),
        0 <= i < j < order.len(),
    ensures
        order[i] != order[j],
{
    assert(precedes(keys, order[i] as int, order[j] as int));
    lemma_precedes_total(keys, order[i] as int, order[i] as int);
}

/// Two orders of the same keys are the same order.
pub proof fn rankings_are_unique(a: Seq<usize>, b: Seq<usize>, keys: Seq<Seq<i128>>)
    requires
        is_ranking(a, keys),
        is_ranking(b, keys),
    ensures
        a == b,
{
    lemma_same_prefix(a, b, keys, a.len() as int);
    assert(a =~= b);
}

proof fn lemma_same_prefix(a: Seq<usize>, b: Seq<usize>, keys: Seq<Seq<i128>>, m: int)
    requires
        is_ranking(a, keys),
        is_ranking(b, keys),
        0 <= m <= a.len(),
    ensures
        forall|i: int| 0 <= i < m ==> #[trigger] a[i] == b[i],
    decreases m,
{
    if m > 0 {
        lemma_same_prefix(a, b, keys, m - 1);
        let x = a[m - 1];
        let y = b[m - 1];
        if x != y {
            assert(b.contains(x));
            assert(a.contains(y));
            let p = choose|p: int| 0 <= p < b.len() && b[p] == x;
            let q = choose|q: int| 0 <= q < a.len() && a[q] == y;
            if p < m - 1 {
                assert(a[p] == x);
                assert(precedes(keys, a[p] as int, a[m - 1] as int));
                lemma_precedes_total(keys, x as int, x as int);
            }
            if q < m - 1 {
                assert(b[q] == y);
                assert(precedes(keys, b[q] as int, b[m - 1] as int));
                lemma_precedes_total(keys, y as int, y as int);
            }
            assert(precedes(keys, b[m - 1] as int, b[p] as int));
            assert(precedes(keys, a[m - 1] as int, a[q] as int));
            lemma_precedes_total(keys, x as int, y as int);
        }
    }
}

/// `leaders` are the first `limit` items, or all where there are fewer.
pub open spec fn are_leaders(leaders: Seq<usize>, keys: Seq<Seq<i128>>, limit: int) -> bool {
    exists|order: Seq<usize>| #[trigger]
        is_ranking(order, keys) && leaders == order.take(
            if limit < order.len() {
                limit
            } else {
                order.len() as int
            },
        )
}

/// The first `limit` items in order.
pub fn leading(keys: &Vec<Vec<i128>>, limit: usize) -> (leaders: Vec<usize>)
    ensures
        are_leaders(leaders@, key_views(keys@), limit as int),
        forall|i: int| 0 <= i < leaders.len() ==> (#[trigger] leaders@[i]) < keys.len(),
        leaders.len() <= limit,
        leaders.len() <= keys.len(),
{
    let mut leaders = ranking(keys);
    let ghost order = leaders@;
    leaders.truncate(limit);
    assert(leaders@ =~= order.take(
        if limit < order.len() {
            limit as int
        } else {
            order.len() as int
        },
    ));
    leaders
}

/// No key is above the key at `at`, and no later one equals it.
pub open spec fn is_last_maximum(at: int, keys: Seq<Seq<i128>>) -> bool {
    &&& 0 <= at < keys.len()
    &&& forall|j: int| 0 <= j < keys.len() ==> !lex_lt(keys[at], #[trigger] keys[j])
    &&& forall|j: int| at < j < keys.len() ==> lex_lt(#[trigger] keys[j], keys[at])
}

/// The position of the last of the largest keys.
pub fn last_maximum(keys: &Vec<Vec<i128>>) -> (r: Option<usize>)
    ensures
        match r {
            None => keys.len() == 0,
            Some(at) => is_last_maximum(at as int, key_views(keys@)),
        },
{
    if keys.len() == 0 {
        return None;
    }
    let ghost kv = key_views(keys@);
    let mut at: usize = 0;
    let mut i: usize = 1;
    proof {
        lemma_lex_irreflexive(kv[0]);
        assert(kv.take(1)[0] == kv[0]);
    }
    while i < keys.len()
        invariant
            1 <= i <= keys.len(),
            at < i,
            kv == key_views(keys@),
            is_last_maximum(at as int, kv.take(i as int)),
        decreases keys.len() - i,
    {
        let ghost shorter = kv.take(i as int);
        let ghost longer = kv.take(i + 1);
        if key_below(&keys[i], &keys[at]) {
            proof {
                lemma_precedes_total(kv, i as int, at as int);
                if lex_lt(kv[at as int], kv[i as int]) {
                    lemma_lex_transitive(kv[i as int], kv[at as int], kv[i as int]);
                    lemma_lex_irreflexive(kv[i as int]);
                }
                assert forall|j: int| 0 <= j < longer.len() implies !lex_lt(
                    longer[at as int],
                    #[trigger] longer[j],
                ) by {
                    if j < i {
                        assert(shorter[j] == longer[j]);
                    }
                }
                assert forall|j: int| at < j < longer.len() implies lex_lt(
                    #[trigger] longer[j],
                    longer[at as int],
                ) by {
                    if j < i {
                        assert(shorter[j] == longer[j]);
                    }
                }
            }
        } else {
            proof {
                assert forall|j: int| 0 <= j < longer.len() implies !lex_lt(
                    longer[i as int],
                    #[trigger] longer[j],
                ) by {
                    lemma_lex_irreflexive(kv[i as int]);
                    if j < i {
                        assert(shorter[j] == longer[j]);
                        assert(!lex_lt(shorter[at as int], shorter[j]));
                        lemma_lex_total(kv[i as int], kv[at as int]);
                        if lex_lt(kv[i as int], kv[j]) {
                            if kv[i as int] != kv[at as int] {
                                lemma_lex_transitive(kv[at as int], kv[i as int], kv[j]);
                            }
                        }
                    }
                }
            }
            at = i;
        }
        i += 1;
    }
    assert(kv.take(i as int) =~= kv);
    Some(at)
}

/// The order of keys is a total order.
pub proof fn lemma_lex_order(a: Seq<i128>, b: Seq<i128>, c: Seq<i128>)
    ensures
        !lex_lt(a, a),
        a == b || lex_lt(a, b) || lex_lt(b, a),
        !(lex_lt(a, b) && lex_lt(b, a)),
        lex_lt(a, b) && lex_lt(b, c) ==> lex_lt(a, c),
{
    lemma_lex_irreflexive(a);
    lemma_lex_total(a, b);
    if lex_lt(a, b) && lex_lt(b, a) {
        lemma_lex_transitive(a, b, a);
    }
    if lex_lt(a, b) && lex_lt(b, c) {
        lemma_lex_transitive(a, b, c);
    }
}

/// The key by which texts are put in order: their characters.
pub open spec fn text_key(text: Seq<char>) -> Seq<i128> {
    text.map_values(|c: char| c as u32 as i128)
}

/// Appends the key of a text to `key`.
pub fn push_text_key(key: &mut Vec<i128>, text: &str)
    ensures
        final(key)@ == old(key)@ + text_key(text@),
{
    let chars = crate::text::chars_of(text);
    let mut i: usize = 0;
    while i < chars.len()
        invariant
            i <= chars.len(),
            chars@ == text@,
            key@ == old(key)@ + text_key(text@.take(i as int)),
        decreases chars.len() - i,
    {
        proof {
            assert(text_key(text@.take(i + 1)) =~= text_key(text@.take(i as int)).push(
                text@[i as int] as u32 as i128,
            ));
        }
        key.push(chars[i] as u32 as i128);
        i += 1;
    }
    assert(text@.take(i as int) =~= text@);
}

/// `order` lists the positions below `n` that are kept, each once: those with a smaller key first,
/// and among equal keys the earlier position first.
pub open spec fn is_ranked_choice(
    order: Seq<usize>,
    n: int,
    keep: spec_fn(int) -> bool,
    key: spec_fn(int) -> Seq<i128>,
) -> bool {
    &&& forall|i: int| 0 <= i < order.len() ==> (#[trigger] order[i]) < n && keep(order[i] as int)
    &&& forall|i: int, j: int|
        0 <= i < j < order.len() ==> comes_first(key, #[trigger] order[i] as int, #[trigger] order[j] as int)
    &&& forall|k: usize| k < n && keep(k as int) ==> #[trigger] order.contains(k)
}

/// Position `a` comes before position `b` under `key`.
pub open spec fn comes_first(key: spec_fn(int) -> Seq<i128>, a: int, b: int) -> bool {
    lex_lt(key(a), key(b)) || (key(a) == key(b) && a < b)
}

/// The kept positions in order. `flags` says which are kept, `keys` holds the key of each.
pub fn ranked_choice(flags: &Vec<bool>, keys: &Vec<Vec<i128>>) -> (order: Vec<usize>)
    requires
        flags@.len() == keys@.len(),
    ensures
        is_ranked_choice(
            order@,
            keys@.len() as int,
            |i: int| flags@[i],
            |i: int| keys@[i]@,
        ),
{
    let all = ranking(keys);
    let ghost kv = key_views(keys@);
    let ghost keep = |i: int| flags@[i];
    let ghost key = |i: int| keys@[i]@;
    let mut order: Vec<usize> = Vec::new();
    let mut at: usize = 0;
    while at < all.len()
        invariant
            at <= all.len(),
            kv == key_views(keys@),
            keep == (|i: int| flags@[i]),
            key == (|i: int| keys@[i]@),
            is_ranking(all@, kv),
            flags@.len() == keys@.len(),
            forall|i: int| 0 <= i < order.len() ==> (#[trigger] order@[i]) < keys.len() && keep(order@[i] as int),
            forall|i: int, j: int|
                0 <= i < j < order.len() ==> comes_first(
                    key,
                    #[trigger] order@[i] as int,
                    #[trigger] order@[j] as int,
                ),
            forall|i: int| 0 <= i < order.len() ==> all@.take(at as int).contains(#[trigger] order@[i]),
            forall|m: int| 0 <= m < at && keep(all@[m] as int) ==> order@.contains(#[trigger] all@[m]),
        decreases all.len() - at,
    {
        let ghost before = order@;
        let place = all[at];
        assert(place < kv.len());
        proof {
            assert forall|x: usize| #[trigger] all@.take(at as int).contains(x) implies all@.take(at + 1).contains(x)
                && comes_first(key, x as int, place as int) by {
                let m = choose|m: int| 0 <= m < at && all@.take(at as int)[m] == x;
                assert(all@.take(at + 1)[m] == x);
                assert(all@[m] == x);
                assert(precedes(kv, all@[m] as int, all@[at as int] as int));
                assert(x < kv.len());
                assert(kv[x as int] == keys@[x as int]@);
                assert(kv[place as int] == keys@[place as int]@);
            }
            assert(all@.take(at + 1)[at as int] == place);
        }
        if flags[place] {
            order.push(place);
            proof {
                assert(order@[before.len() as int] == place);
                assert forall|m: int| 0 <= m < at + 1 && keep(all@[m] as int) implies order@.contains(
                    #[trigger] all@[m],
                ) by {
                    if m < at {
                        assert(before.contains(all@[m]));
                        let b = choose|b: int| 0 <= b < before.len() && before[b] == all@[m];
                        assert(order@[b] == all@[m]);
                    }
                }
            }
        }
        at += 1;
    }
    proof {
        assert forall|k: usize| k < keys.len() && keep(k as int) implies #[trigger] order@.contains(k) by {
            assert(all@.contains(k));
            let m = choose|m: int| 0 <= m < all@.len() && all@[m] == k;
            assert(order@.contains(all@[m]));
        }
    }
    order
}

/// A choice stays one when it is said in other words which positions are kept and by what they are
/// ordered.
pub proof fn lemma_ranked_by(
    order: Seq<usize>,
    flags: Seq<bool>,
    keys: Seq<Vec<i128>>,
    keep: spec_fn(int) -> bool,
    key: spec_fn(int) -> Seq<i128>,
)
    requires
        is_ranked_choice(order, keys.len() as int, |i: int| flags[i], |i: int| keys[i]@),
        flags.len() == keys.len(),
        forall|k: int| 0 <= k < keys.len() ==> #[trigger] flags[k] == keep(k),
        forall|k: int| 0 <= k < keys.len() && flags[k] ==> (#[trigger] keys[k])@ == key(k),
    ensures
        is_ranked_choice(order, keys.len() as int, keep, key),
{
    let by_flag = |i: int| flags[i];
    let by_key = |i: int| keys[i]@;
    assert forall|i: int| 0 <= i < order.len() implies (#[trigger] order[i]) < keys.len() && keep(
        order[i] as int,
    ) by {
        assert(by_flag(order[i] as int));
        assert(flags[order[i] as int] == keep(order[i] as int));
    }
    assert forall|i: int, j: int| 0 <= i < j < order.len() implies comes_first(
        key,
        #[trigger] order[i] as int,
        #[trigger] order[j] as int,
    ) by {
        assert(comes_first(by_key, order[i] as int, order[j] as int));
        assert(by_flag(order[i] as int) && by_flag(order[j] as int));
        assert(keys[order[i] as int]@ == key(order[i] as int));
        assert(keys[order[j] as int]@ == key(order[j] as int));
    }
    assert forall|k: usize| k < keys.len() && keep(k as int) implies #[trigger] order.contains(k) by {
        assert(flags[k as int] == keep(k as int));
        assert(by_flag(k as int));
    }
}

/// There is only one such order.
pub proof fn ranked_choices_are_unique(
    a: Seq<usize>,
    b: Seq<usize>,
    n: int,
    keep: spec_fn(int) -> bool,
    key: spec_fn(int) -> Seq<i128>,
)
    requires
        is_ranked_choice(a, n, keep, key),
        is_ranked_choice(b, n, keep, key),
    ensures
        a == b,
{
    lemma_same_choice(a, b, n, keep, key, a.len() as int);
    lemma_same_choice(b, a, n, keep, key, b.len() as int);
    assert(a =~= b);
}

proof fn lemma_same_choice(
    a: Seq<usize>,
    b: Seq<usize>,
    n: int,
    keep: spec_fn(int) -> bool,
    key: spec_fn(int) -> Seq<i128>,
    m: int,
)
    requires
        is_ranked_choice(a, n, keep, key),
        is_ranked_choice(b, n, keep, key),
        0 <= m <= a.len(),
    ensures
        m <= b.len(),
        forall|i: int| 0 <= i < m ==> a[i] == b[i],
    decreases m,
{
    if m > 0 {
        lemma_same_choice(a, b, n, keep, key, m - 1);
        let p = m - 1;
        assert(a[p] < n && keep(a[p] as int));
        assert(b.contains(a[p]));
        let q = choose|q: int| 0 <= q < b.len() && b[q] == a[p];
        if q < p {
            assert(a[q] == b[q]);
            assert(comes_first(key, a[q] as int, a[p] as int));
            lemma_lex_irreflexive(key(a[p] as int));
            assert(false);
        }
        if q > p {
            assert(b[p] < n && keep(b[p] as int));
            assert(a.contains(b[p]));
            let r = choose|r: int| 0 <= r < a.len() && a[r] == b[p];
            assert(comes_first(key, b[p] as int, b[q] as int));
            if r < p {
                assert(a[r] == b[r]);
                assert(comes_first(key, b[r] as int, b[p] as int));
                lemma_lex_irreflexive(key(b[p] as int));
                assert(false);
            } else if r > p {
                assert(comes_first(key, a[p] as int, a[r] as int));
                let x = key(a[p] as int);
                let y = key(b[p] as int);
                if lex_lt(x, y) && lex_lt(y, x) {
                    lemma_lex_transitive(x, y, x);
                }
                lemma_lex_irreflexive(x);
                assert(false);
            } else {
                lemma_lex_irreflexive(key(a[p] as int));
                assert(false);
            }
        }
    }
}

} // verus!
