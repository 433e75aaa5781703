//! Selections of positions.
use vstd::prelude::*;

verus! {

/// `pool` lists the positions below `n` that `keep` holds of, in ascending order.
pub open spec fn selects(pool: Seq<usize>, n: int, keep: spec_fn(int) -> bool) -> bool {
    &&& forall|i: int, j: int| 0 <= i < j < pool.len() ==> #[trigger] pool[i] < #[trigger] pool[j]
    &&& forall|i: int| 0 <= i < pool.len() ==> (#[trigger] pool[i]) < n && keep(pool[i] as int)
    &&& forall|k: usize| k < n && keep(k as int) ==> #[trigger] pool.contains(k)
}

/// Lists the positions whose flag is set.
pub fn select(flags: &Vec<bool>) -> (pool: Vec<usize>)
    ensures
        selects(pool@, flags@.len() as int, |i: int| flags@[i]),
{
    let mut pool: Vec<usize> = Vec::new();
    let mut i: usize = 0;
    while i < flags.len()
        invariant
            i <= flags.len(),
            selects(pool@, i as int, |k: int| flags@[k]),
        decreases flags.len() - i,
    {
        let ghost before = pool@;
        if flags[i] {
            pool.push(i);
            assert forall|k: usize| k < i + 1 && flags@[k as int] implies #[trigger] pool@.contains(k) by {
                if k < i {
                    assert(before.contains(k));
                    let p = choose|p: int| 0 <= p < before.len() && before[p] == k;
                    assert(pool@[p] == k);
                } else {
                    assert(pool@[before.len() as int] == k);
                }
            }
        }
        i += 1;
    }
    pool
}

/// A selection by flags is a selection by the condition that the flags stand for.
pub proof fn lemma_selects_by_flags(pool: Seq<usize>, flags: Seq<bool>, keep: spec_fn(int) -> bool)
    requires
        selects(pool, flags.len() as int, |i: int| flags[i]),
        forall|k: int| 0 <= k < flags.len() ==> #[trigger] flags[k] == keep(k),
    ensures
        selects(pool, flags.len() as int, keep),
{
    let by_flag = |i: int| flags[i];
    assert forall|k: usize| k < flags.len() && keep(k as int) implies #[trigger] pool.contains(k) by {
        assert(flags[k as int] == keep(k as int));
        assert(by_flag(k as int));
    }
    assert forall|j: int| 0 <= j < pool.len() implies (#[trigger] pool[j]) < flags.len() && keep(
        pool[j] as int,
    ) by {
        assert(by_flag(pool[j] as int));
        assert(flags[pool[j] as int] == keep(pool[j] as int));
    }
}

/// Two lists of the positions that one condition holds of are the same list.
pub proof fn selections_are_unique(a: Seq<usize>, b: Seq<usize>, n: int, keep: spec_fn(int) -> bool)
    requires
        selects(a, n, keep),
        selects(b, n, keep),
    ensures
        a == b,
{
    lemma_prefix_equal(a, b, n, keep, a.len() as int);
    lemma_prefix_equal(b, a, n, keep, b.len() as int);
    assert(a =~= b);
}

proof fn lemma_prefix_equal(a: Seq<usize>, b: Seq<usize>, n: int, keep: spec_fn(int) -> bool, m: int)
    requires
        selects(a, n, keep),
        selects(b, n, keep),
        0 <= m <= a.len(),
    ensures
        m <= b.len(),
        forall|i: int| 0 <= i < m ==> #[trigger] a[i] == b[i],
    decreases m,
{
    if m > 0 {
        lemma_prefix_equal(a, b, n, keep, m - 1);
        let x = a[m - 1];
        assert(b.contains(x));
        let p = choose|p: int| 0 <= p < b.len() && b[p] == x;
        if p < m - 1 {
            assert(a[p] == b[p]);
            assert(a[p] < a[m - 1]);
        }
        if p > m - 1 {
            let y = b[m - 1];
            assert(y < x);
            assert(a.contains(y));
            let q = choose|q: int| 0 <= q < a.len() && a[q] == y;
            if q < m - 1 {
                assert(a[q] == b[q]);
                assert(b[q] < b[m - 1]);
            } else if q > m - 1 {
                assert(a[m - 1] < a[q]);
            }
        }
    }
}

/// Lists the positions below `n` that one of two lists holds.
pub fn either(n: usize, a: &Vec<usize>, b: &Vec<usize>) -> (pool: Vec<usize>)
    requires
        forall|i: int| 0 <= i < a.len() ==> (#[trigger] a@[i]) < n,
        forall|i: int| 0 <= i < b.len() ==> (#[trigger] b@[i]) < n,
    ensures
        selects(pool@, n as int, |k: int| a@.contains(k as usize) || b@.contains(k as usize)),
{
    let mut flags: Vec<bool> = Vec::new();
    let mut i: usize = 0;
    while i < n
        invariant
            i <= n,
            flags.len() == i,
            forall|k: int| 0 <= k < i ==> !#[trigger] flags@[k],
        decreases n - i,
    {
        flags.push(false);
        i += 1;
    }
    mark(&mut flags, a);
    mark(&mut flags, b);
    let pool = select(&flags);
    let ghost wanted = |k: int| a@.contains(k as usize) || b@.contains(k as usize);
    proof {
        lemma_selects_by_flags(pool@, flags@, wanted);
    }
    pool
}

/// Sets the flags at `positions`.
fn mark(flags: &mut Vec<bool>, positions: &Vec<usize>)
    requires
        forall|i: int| 0 <= i < positions.len() ==> (#[trigger] positions@[i]) < old(flags).len(),
    ensures
        final(flags).len() == old(flags).len(),
        forall|k: int|
            0 <= k < final(flags).len() ==> #[trigger] final(flags)@[k] == (old(flags)@[k] || positions@.contains(
                k as usize,
            )),
{
    let ghost start = flags@;
    let size: usize = flags.len();
    let mut i: usize = 0;
    while i < positions.len()
        invariant
            i <= positions.len(),
            flags.len() == start.len(),
            start.len() == size,
            forall|j: int| 0 <= j < positions.len() ==> (#[trigger] positions@[j]) < start.len(),
            forall|k: int|
                0 <= k < flags.len() ==> #[trigger] flags@[k] == (start[k] || positions@.take(
                    i as int,
                ).contains(k as usize)),
        decreases positions.len() - i,
    {
        let at = positions[i];
        let ghost before = flags@;
        flags.set(at, true);
        proof {
            let shorter = positions@.take(i as int);
            let longer = positions@.take(i + 1);
            assert(longer =~= shorter.push(at));
            assert forall|k: int| 0 <= k < flags.len() implies #[trigger] flags@[k] == (start[k]
                || longer.contains(k as usize)) by {
                assert(before[k] == (start[k] || shorter.contains(k as usize)));
                if shorter.contains(k as usize) {
                    let p = choose|p: int| 0 <= p < shorter.len() && shorter[p] == k as usize;
                    assert(longer[p] == k as usize);
                }
                if k == at {
                    assert(longer[i as int] == k as usize);
                }
                if longer.contains(k as usize) && k != at {
                    let p = choose|p: int| 0 <= p < longer.len() && longer[p] == k as usize;
                    assert(shorter[p] == k as usize);
                }
            }
        }
        i += 1;
    }
    assert(positions@.take(i as int) =~= positions@);
}

} // verus!
