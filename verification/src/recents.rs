//! Short lists of what was shown last, the newest at the end.
use vstd::prelude::*;

verus! {

/// Values that can be told apart.
pub trait Keyed: Copy {
    /// Whether both are the same value.
    fn same(&self, other: &Self) -> (r: bool)
        ensures
            r == (*self == *other),
    ;
}

/// The first position of `x` in `s`, or the length of `s` where it is not in it.
pub open spec fn position_of<T>(s: Seq<T>, x: T) -> int
    decreases s.len(),
{
    if s.len() == 0 || s[0] == x {
        0
    } else {
        1 + position_of(s.skip(1), x)
    }
}

/// The list with `x` as its newest, without its first earlier place.
pub open spec fn moved_last<T>(s: Seq<T>, x: T) -> Seq<T> {
    let p = position_of(s, x);
    if p < s.len() {
        s.remove(p).push(x)
    } else {
        s.push(x)
    }
}

/// The newest of the list, at most `limit`.
pub open spec fn newest<T>(s: Seq<T>, limit: int) -> Seq<T> {
    if s.len() > limit {
        s.skip(s.len() - limit)
    } else {
        s
    }
}

proof fn lemma_position<T>(s: Seq<T>, x: T, i: int)
    requires
        0 <= i <= s.len(),
        forall|j: int| 0 <= j < i ==> #[trigger] s[j] != x,
        i < s.len() ==> s[i] == x,
    ensures
        position_of(s, x) == i,
    decreases s.len(),
{
    if s.len() > 0 && i > 0 {
        assert(s[0] != x);
        assert forall|j: int| 0 <= j < i - 1 implies #[trigger] s.skip(1)[j] != x by {
            assert(s[j + 1] != x);
        }
        lemma_position(s.skip(1), x, i - 1);
    }
}

proof fn lemma_position_range<T>(s: Seq<T>, x: T)
    ensures
        0 <= position_of(s, x) <= s.len(),
        position_of(s, x) < s.len() ==> s[position_of(s, x)] == x,
        position_of(s, x) == s.len() ==> !s.contains(x),
    decreases s.len(),
{
    if s.len() > 0 && s[0] != x {
        lemma_position_range(s.skip(1), x);
        if s.contains(x) {
            let j = choose|j: int| 0 <= j < s.len() && s[j] == x;
            assert(s.skip(1)[j - 1] == x);
        }
    }
}

/// Makes `item` the newest of the list.
pub fn move_last<T: Keyed>(list: &mut Vec<T>, item: T)
    ensures
        final(list)@ == moved_last(old(list)@, item),
{
    let mut i: usize = 0;
    while i < list.len() && !list[i].same(&item)
        invariant
            i <= list.len(),
            *list == *old(list),
            forall|j: int| 0 <= j < i ==> #[trigger] list@[j] != item,
        decreases list.len() - i,
    {
        i += 1;
    }
    proof {
        lemma_position(list@, item, i as int);
    }
    if i < list.len() {
        let _earlier = list.remove(i);
    }
    list.push(item);
}

/// Drops the oldest beyond `limit`.
pub fn keep_newest<T>(list: &mut Vec<T>, limit: usize)
    ensures
        final(list)@ == newest(old(list)@, limit as int),
{
    let ghost full = list@;
    let ghost dropped: int = 0;
    while list.len() > limit
        invariant
            0 <= dropped <= full.len(),
            list@ == full.skip(dropped),
            dropped > 0 ==> list.len() >= limit,
        decreases list.len(),
    {
        let _oldest = list.remove(0);
        proof {
            assert(full.skip(dropped).remove(0) =~= full.skip(dropped + 1));
            dropped = dropped + 1;
        }
    }
    assert(full.skip(0) =~= full);
    assert(list@ =~= newest(full, limit as int));
}

/// How many newer values the list holds behind `item`, if it holds `item`.
pub fn recent_rank<T: Keyed>(list: &Vec<T>, item: T) -> (r: Option<usize>)
    ensures
        match r {
            None => !list@.contains(item),
            Some(rank) => {
                &&& rank < list@.len()
                &&& list@[list@.len() - 1 - rank] == item
                &&& forall|j: int| list@.len() - 1 - rank < j < list@.len() ==> #[trigger] list@[j] != item
            },
        },
{
    let mut rank: usize = 0;
    while rank < list.len()
        invariant
            rank <= list.len(),
            forall|j: int| list@.len() - rank <= j < list@.len() ==> #[trigger] list@[j] != item,
        decreases list.len() - rank,
    {
        if list[list.len() - 1 - rank].same(&item) {
            return Some(rank);
        }
        rank += 1;
    }
    None
}

/// A list that holds each value once still does after a value was made its newest, and that value
/// is its last.
pub proof fn moving_keeps_values_apart<T>(s: Seq<T>, x: T)
    requires
        s.no_duplicates(),
    ensures
        moved_last(s, x).no_duplicates(),
        moved_last(s, x).last() == x,
        moved_last(s, x).len() <= s.len() + 1,
{
    lemma_position_range(s, x);
    let p = position_of(s, x);
    if p < s.len() {
        let rest = s.remove(p);
        assert forall|i: int| 0 <= i < rest.len() implies #[trigger] rest[i] != x by {
            if i < p {
                assert(s[i] != s[p]);
            } else {
                assert(rest[i] == s[i + 1]);
                assert(s[i + 1] != s[p]);
            }
        }
        assert forall|i: int, j: int| 0 <= i < j < rest.len() implies rest[i] != rest[j] by {
            let a = if i < p {
                i
            } else {
                i + 1
            };
            let b = if j < p {
                j
            } else {
                j + 1
            };
            assert(s[a] != s[b]);
        }
    }
}

} // verus!
