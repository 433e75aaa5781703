//! What is remembered as shown.
use crate::recents;
use vstd::prelude::*;

verus! {

/// What was shown becomes the newest, its first earlier place is given up, and all else keeps its
/// order.
pub proof fn the_newest_stands_last<T>(list: Seq<T>, item: T, at: int)
    ensures
        !list.contains(item) ==> recents::moved_last(list, item) == list.push(item),
        0 <= at < list.len() && list[at] == item && (forall|i: int| 0 <= i < at ==> #[trigger] list[i] != item)
            ==> recents::moved_last(list, item) == (list.take(at) + list.skip(at + 1)).push(item),
{
    lemma_position(list, item, at);
    if 0 <= at < list.len() && list[at] == item && (forall|i: int|
        0 <= i < at ==> #[trigger] list[i] != item) {
        assert(list.remove(at) =~= list.take(at) + list.skip(at + 1));
    }
}

proof fn lemma_position<T>(list: Seq<T>, item: T, at: int)
    ensures
        !list.contains(item) ==> recents::position_of(list, item) == list.len(),
        0 <= at < list.len() && list[at] == item && (forall|i: int| 0 <= i < at ==> #[trigger] list[i] != item)
            ==> recents::position_of(list, item) == at,
    decreases list.len(),
{
    if list.len() > 0 {
        let rest = list.skip(1);
        lemma_position(rest, item, at - 1);
        if !list.contains(item) {
            assert(list[0] != item);
            if rest.contains(item) {
                let i = choose|i: int| 0 <= i < rest.len() && rest[i] == item;
                assert(list[i + 1] == item);
            }
        }
        if 0 < at < list.len() && list[at] == item && (forall|i: int|
            0 <= i < at ==> #[trigger] list[i] != item) {
            assert(list[0] != item);
            assert(rest[at - 1] == item);
            assert forall|i: int| 0 <= i < at - 1 implies #[trigger] rest[i] != item by {
                assert(list[i + 1] != item);
            }
        }
    }
}

/// Of a list the newest are kept, as many as fit, in their order.
pub proof fn the_oldest_are_forgotten<T>(list: Seq<T>, limit: int)
    requires
        0 <= limit,
    ensures
        recents::newest(list, limit).len() == if list.len() <= limit {
            list.len() as int
        } else {
            limit
        },
        forall|i: int|
            0 <= i < recents::newest(list, limit).len() ==> #[trigger] recents::newest(list, limit)[i]
                == list[list.len() - recents::newest(list, limit).len() + i],
{
}

} // verus!
