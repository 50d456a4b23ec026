//! Small vocabulary for lists of positions.

use vstd::prelude::*;

verus! {

/// The positions below `n` that `keep` accepts, ascending.
pub open spec fn positions_where(n: nat, keep: spec_fn(int) -> bool) -> Seq<int>
    decreases n,
{
    if n == 0 {
        Seq::empty()
    } else if keep(n - 1) {
        positions_where((n - 1) as nat, keep).push(n - 1)
    } else {
        positions_where((n - 1) as nat, keep)
    }
}

/// A list of machine integers as integers.
pub open spec fn ints(v: Seq<usize>) -> Seq<int> {
    Seq::new(v.len(), |i: int| v[i] as int)
}

/// `positions_where` lists exactly the accepted positions, in ascending order.
pub proof fn lemma_positions_where(n: nat, keep: spec_fn(int) -> bool)
    ensures
        forall|i: int|
            0 <= i < positions_where(n, keep).len() ==> {
                &&& 0 <= #[trigger] positions_where(n, keep)[i] < n
                &&& keep(positions_where(n, keep)[i])
            },
        forall|i: int, j: int|
            #![trigger positions_where(n, keep)[i], positions_where(n, keep)[j]]
            0 <= i < j < positions_where(n, keep).len() ==> positions_where(n, keep)[i]
                < positions_where(n, keep)[j],
        forall|p: int|
            0 <= p < n && #[trigger] keep(p) ==> positions_where(n, keep).contains(p),
        positions_where(n, keep).len() <= n,
    decreases n,
{
    if n > 0 {
        let shorter = positions_where((n - 1) as nat, keep);
        lemma_positions_where((n - 1) as nat, keep);
        let all = positions_where(n, keep);
        assert forall|p: int| 0 <= p < n && #[trigger] keep(p) implies all.contains(p) by {
            if p < n - 1 {
                assert(shorter.contains(p));
                let i = choose|i: int| 0 <= i < shorter.len() && shorter[i] == p;
                assert(all[i] == p);
            } else {
                assert(all[all.len() - 1] == p);
            }
        }
    }
}

/// The pairs of positions `(a, b)` with `i <= a < b < n`, by `a` and then by `b`.
pub open spec fn pairs_from(i: int, n: int) -> Seq<(int, int)>
    decreases n - i,
{
    if i >= n {
        Seq::empty()
    } else {
        Seq::new((n - i - 1) as nat, |k: int| (i, i + 1 + k)) + pairs_from(i + 1, n)
    }
}

/// `pairs_from` lists exactly the pairs of different positions, each once.
pub proof fn lemma_pairs_from(i: int, n: int)
    requires
        0 <= i,
    ensures
        forall|k: int|
            0 <= k < pairs_from(i, n).len() ==> i <= (#[trigger] pairs_from(i, n)[k]).0
                < pairs_from(i, n)[k].1 < n,
        forall|a: int, b: int|
            i <= a < b < n ==> #[trigger] pairs_from(i, n).contains((a, b)),
        pairs_from(i, n).no_duplicates(),
    decreases n - i,
{
    if i < n {
        lemma_pairs_from(i + 1, n);
        let first = Seq::new((n - i - 1) as nat, |k: int| (i, i + 1 + k));
        let rest = pairs_from(i + 1, n);
        let all = pairs_from(i, n);
        assert(all == first + rest);
        assert forall|a: int, b: int| i <= a < b < n implies #[trigger] all.contains((a, b)) by {
            if a == i {
                assert(all[b - i - 1] == (a, b));
            } else {
                assert(rest.contains((a, b)));
                let k = choose|k: int| 0 <= k < rest.len() && rest[k] == (a, b);
                assert(all[first.len() + k] == (a, b));
            }
        }
        assert forall|k: int| 0 <= k < all.len() implies i <= (#[trigger] all[k]).0 < all[k].1
            < n by {
            if k >= first.len() {
                assert(all[k] == rest[k - first.len()]);
            }
        }
        assert forall|k: int, l: int| 0 <= k < all.len() && 0 <= l < all.len() && k != l implies all[k]
            != all[l] by {
            if k >= first.len() {
                assert(all[k] == rest[k - first.len()]);
            }
            if l >= first.len() {
                assert(all[l] == rest[l - first.len()]);
            }
        }
    }
}

/// Pairs of machine integers as pairs of integers.
pub open spec fn int_pairs(v: Seq<(usize, usize)>) -> Seq<(int, int)> {
    Seq::new(v.len(), |i: int| (v[i].0 as int, v[i].1 as int))
}

/// All pairs of different positions below `n`.
pub fn index_pairs(n: usize) -> (pairs: Vec<(usize, usize)>)
    ensures
        int_pairs(pairs@) == pairs_from(0, n as int),
{
    let mut pairs: Vec<(usize, usize)> = Vec::new();
    let mut a: usize = 0;
    assert(int_pairs(pairs@) + pairs_from(0, n as int) =~= pairs_from(0, n as int));
    while a < n
        invariant
            a <= n,
            int_pairs(pairs@) + pairs_from(a as int, n as int) == pairs_from(0, n as int),
        decreases n - a,
    {
        let ghost done = int_pairs(pairs@);
        let ghost row = Seq::new((n - a - 1) as nat, |k: int| (a as int, a + 1 + k));
        let mut b: usize = a + 1;
        assert(int_pairs(pairs@) =~= done + row.take(0));
        while b < n
            invariant
                a < b <= n,
                row == Seq::new((n - a - 1) as nat, |k: int| (a as int, a + 1 + k)),
                int_pairs(pairs@) == done + row.take(b - a - 1),
            decreases n - b,
        {
            let ghost before = pairs@;
            pairs.push((a, b));
            assert(int_pairs(pairs@) =~= int_pairs(before).push((a as int, b as int)));
            assert(row.take(b - a) =~= row.take(b - a - 1).push((a as int, b as int)));
            assert(int_pairs(pairs@) =~= done + row.take(b - a));
            b = b + 1;
        }
        assert(row.take(row.len() as int) =~= row);
        assert((done + row) + pairs_from(a + 1, n as int) =~= done + (row + pairs_from(
            a + 1,
            n as int,
        )));
        a = a + 1;
    }
    assert(int_pairs(pairs@) + pairs_from(n as int, n as int) =~= int_pairs(pairs@));
    pairs
}

} // verus!
