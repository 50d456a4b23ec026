//! A stable sort over positions, for any way of comparing two of them.

use crate::text;
use vstd::prelude::*;

verus! {

/// Position `a` is placed before position `b` by a stable sort under `less`.
pub open spec fn placed_before(less: spec_fn(int, int) -> bool, a: int, b: int) -> bool {
    less(a, b) || (!less(b, a) && a < b)
}

/// `less` compares the positions below `n` consistently: it never holds both ways, and
/// "not greater" is transitive.
pub open spec fn consistent(less: spec_fn(int, int) -> bool, n: int) -> bool {
    &&& forall|a: int, b: int| #[trigger]
        less(a, b) && 0 <= a < n && 0 <= b < n ==> !less(b, a)
    &&& forall|a: int, b: int, c: int|
        0 <= a < n && 0 <= b < n && 0 <= c < n && !(#[trigger] less(b, a)) && !(#[trigger] less(
            c,
            b,
        )) ==> !less(c, a)
}

/// `order` lists every position below `n` exactly once.
pub open spec fn lists_all(order: Seq<usize>, n: int) -> bool {
    &&& order.len() == n
    &&& order.no_duplicates()
    &&& forall|i: int| 0 <= i < order.len() ==> 0 <= #[trigger] order[i] < n
}

/// `order` is the stable ascending order of the positions below `n` under `less`.
pub open spec fn stably_sorted(
    order: Seq<usize>,
    less: spec_fn(int, int) -> bool,
    n: int,
) -> bool {
    &&& lists_all(order, n)
    &&& forall|i: int, j: int|
        #![trigger order[i], order[j]]
        0 <= i < j < order.len() ==> placed_before(less, order[i] as int, order[j] as int)
}

proof fn lemma_placed_before_transitive(
    less: spec_fn(int, int) -> bool,
    n: int,
    a: int,
    b: int,
    c: int,
)
    requires
        consistent(less, n),
        0 <= a < n,
        0 <= b < n,
        0 <= c < n,
        placed_before(less, a, b),
        placed_before(less, b, c),
    ensures
        placed_before(less, a, c),
{
    assert(!less(b, a));
    assert(!less(c, b));
}

/// Every position below `n` occurs in an order that lists them all.
pub proof fn lemma_lists_all_complete(order: Seq<usize>, n: int, p: usize)
    requires
        lists_all(order, n),
        p < n,
    ensures
        order.contains(p),
{
    if !order.contains(p) {
        let extended = order.push(p);
        assert(extended.no_duplicates());
        let values = extended.map(|i: int, x: usize| x as int);
        assert(values.no_duplicates());
        values.unique_seq_to_set();
        vstd::set_lib::lemma_int_range(0, n);
        assert(values.to_set().subset_of(vstd::set_lib::set_int_range(0, n))) by {
            assert forall|x: int| values.to_set().contains(x) implies 0 <= x < n by {
                let i = choose|i: int| 0 <= i < values.len() && values[i] == x;
                assert(extended[i] as int == x);
            }
        }
        vstd::set_lib::lemma_len_subset(values.to_set(), vstd::set_lib::set_int_range(0, n));
    }
}

/// Sorts the positions below `n` by insertion. The result lists every position once; under a
/// consistent comparison it is the stable ascending order.
pub(crate) fn stable_order<F: Fn(usize, usize) -> bool>(
    n: usize,
    less: F,
    Ghost(model): Ghost<spec_fn(int, int) -> bool>,
) -> (order: Vec<usize>)
    requires
        forall|a: usize, b: usize| a < n && b < n ==> less.requires((a, b)),
        forall|a: usize, b: usize, r: bool|
            a < n && b < n && less.ensures((a, b), r) ==> r == model(a as int, b as int),
    ensures
        lists_all(order@, n as int),
        consistent(model, n as int) ==> stably_sorted(order@, model, n as int),
{
    let mut order: Vec<usize> = Vec::new();
    let mut k: usize = 0;
    while k < n
        invariant
            k <= n,
            lists_all(order@, k as int),
            consistent(model, n as int) ==> stably_sorted(order@, model, k as int),
            forall|a: usize, b: usize| a < n && b < n ==> less.requires((a, b)),
            forall|a: usize, b: usize, r: bool|
                a < n && b < n && less.ensures((a, b), r) ==> r == model(a as int, b as int),
        decreases n - k,
    {
        let mut at: usize = k;
        while at > 0 && less(k, order[at - 1])
            invariant
                at <= k < n,
                lists_all(order@, k as int),
                forall|i: int| at <= i < k ==> model(k as int, #[trigger] order@[i] as int),
                forall|a: usize, b: usize| a < n && b < n ==> less.requires((a, b)),
                forall|a: usize, b: usize, r: bool|
                    a < n && b < n && less.ensures((a, b), r) ==> r == model(a as int, b as int),
            decreases at,
        {
            at = at - 1;
        }
        let ghost before = order@;
        order.insert(at, k);
        proof {
            assert(order@.len() == k + 1);
            assert forall|i: int, j: int|
                0 <= i < order@.len() && 0 <= j < order@.len() && i != j implies order@[i]
                != order@[j] by {
                let oi = if i < at { before[i] } else { before[i - 1] };
                let oj = if j < at { before[j] } else { before[j - 1] };
            }
            if consistent(model, n as int) {
                assert forall|i: int, j: int|
                    #![trigger order@[i], order@[j]]
                    0 <= i < j < order@.len() implies placed_before(
                    model,
                    order@[i] as int,
                    order@[j] as int,
                ) by {
                    let ki = k as int;
                    if j == at {
                        let last = before[at - 1] as int;
                        assert(!model(ki, last));
                        assert(placed_before(model, last, ki));
                        if i < at - 1 {
                            assert(placed_before(model, before[i] as int, last));
                            lemma_placed_before_transitive(
                                model,
                                n as int,
                                before[i] as int,
                                last,
                                ki,
                            );
                        }
                    } else if i == at {
                        assert(model(ki, before[j - 1] as int));
                    } else {
                        let oi = if i < at { before[i] } else { before[i - 1] };
                        let oj = if j < at { before[j] } else { before[j - 1] };
                        assert(placed_before(model, oi as int, oj as int));
                    }
                }
            }
        }
        k = k + 1;
    }
    order
}

/// Puts the items into the given order.
pub(crate) fn reorder<T>(items: Vec<T>, order: &Vec<usize>) -> (r: Vec<T>)
    requires
        lists_all(order@, items@.len() as int),
    ensures
        r@.len() == items@.len(),
        forall|i: int| 0 <= i < r@.len() ==> #[trigger] r@[i] == items@[order@[i] as int],
{
    let ghost all = items@;
    let mut left: Vec<Option<T>> = Vec::new();
    for item in iter: items
        invariant
            iter.seq() == all,
            left@.len() == iter.index(),
            forall|i: int| 0 <= i < left@.len() ==> #[trigger] left@[i] == Some(all[i]),
    {
        left.push(Some(item));
    }
    let mut r: Vec<T> = Vec::new();
    let mut i: usize = 0;
    while i < order.len()
        invariant
            i <= order@.len(),
            lists_all(order@, all.len() as int),
            left@.len() == all.len(),
            r@.len() == i,
            forall|k: int| 0 <= k < i ==> #[trigger] r@[k] == all[order@[k] as int],
            forall|k: int| i <= k < order@.len() ==> left@[#[trigger] order@[k] as int] == Some(
                all[order@[k] as int],
            ),
        decreases order.len() - i,
    {
        let at: usize = order[i];
        assert(left@[order@[i as int] as int] == Some(all[at as int]));
        let taken = left[at].take();
        assert forall|k: int| i + 1 <= k < order@.len() implies left@[#[trigger] order@[k] as int]
            == Some(all[order@[k] as int]) by {
            assert(order@[k] != order@[i as int]);
        }
        match taken {
            Some(item) => r.push(item),
            None => {},
        }
        i = i + 1;
    }
    r
}

/// The comparison of strings by their characters.
pub open spec fn text_less(items: Seq<Seq<char>>) -> spec_fn(int, int) -> bool {
    |a: int, b: int| text::precedes(items[a], items[b])
}

/// Strings are compared consistently.
pub proof fn lemma_text_less_consistent(items: Seq<Seq<char>>)
    ensures
        consistent(text_less(items), items.len() as int),
{
    let less = text_less(items);
    assert forall|a: int, b: int| #[trigger]
        less(a, b) && 0 <= a < items.len() && 0 <= b < items.len() implies !less(b, a) by {
        text::lemma_precedes_total(items[a], items[b]);
    }
    assert forall|a: int, b: int, c: int|
        0 <= a < items.len() && 0 <= b < items.len() && 0 <= c < items.len() && !(#[trigger] less(
            b,
            a,
        )) && !(#[trigger] less(c, b)) implies !less(c, a) by {
        text::lemma_precedes_total(items[a], items[b]);
        text::lemma_precedes_total(items[b], items[c]);
        if less(c, a) {
            if items[a] == items[b] {
                assert(less(c, b));
            } else {
                text::lemma_precedes_transitive(items[c], items[a], items[b]);
                assert(less(c, b));
            }
        }
    }
}

/// The stable ascending order of the given character strings.
pub(crate) fn text_order(keys: &Vec<Vec<char>>) -> (order: Vec<usize>)
    ensures
        stably_sorted(order@, text_less(text::char_lists(keys@)), keys@.len() as int),
{
    let ghost model = text_less(text::char_lists(keys@));
    proof {
        lemma_text_less_consistent(text::char_lists(keys@));
    }
    let less = |a: usize, b: usize| -> (r: bool)
        requires
            a < keys@.len(),
            b < keys@.len(),
        ensures
            r == model(a as int, b as int),
        { text::comes_before(keys[a].as_slice(), keys[b].as_slice()) };
    stable_order(keys.len(), less, Ghost(model))
}

/// `sorted` holds the strings of `items` in ascending order, equal ones in the order they came.
pub open spec fn is_sorted_copy(items: Seq<Seq<char>>, sorted: Seq<Seq<char>>) -> bool {
    exists|order: Seq<usize>|
        {
            &&& #[trigger] stably_sorted(order, text_less(items), items.len() as int)
            &&& sorted == Seq::new(items.len(), |i: int| items[order[i] as int])
        }
}

/// Sorts strings by their characters.
pub fn sort_strings(items: Vec<String>) -> (sorted: Vec<String>)
    ensures
        is_sorted_copy(text::texts(items@), text::texts(sorted@)),
        sorted@.len() == items@.len(),
{
    let mut keys: Vec<Vec<char>> = Vec::new();
    let mut i: usize = 0;
    while i < items.len()
        invariant
            i <= items@.len(),
            keys@.len() == i,
            forall|k: int| 0 <= k < i ==> (#[trigger] keys@[k])@ == items@[k]@,
        decreases items.len() - i,
    {
        keys.push(text::chars_of(items[i].as_str()));
        i = i + 1;
    }
    let order = text_order(&keys);
    assert(text::char_lists(keys@) =~= text::texts(items@));
    let ghost all = items@;
    let sorted = reorder(items, &order);
    assert(text::texts(sorted@) =~= Seq::new(
        all.len(),
        |i: int| text::texts(all)[order@[i] as int],
    ));
    sorted
}

/// A sorted copy ascends and holds the same strings.
pub proof fn law_sorted_copy(items: Seq<Seq<char>>, sorted: Seq<Seq<char>>)
    requires
        is_sorted_copy(items, sorted),
        items.len() <= usize::MAX,
    ensures
        sorted.len() == items.len(),
        forall|i: int, j: int|
            0 <= i < j < sorted.len() ==> !text::precedes(#[trigger] sorted[j], #[trigger] sorted[i]),
        forall|s: Seq<char>| #[trigger] sorted.contains(s) <==> items.contains(s),
{
    let order = choose|order: Seq<usize>|
        {
            &&& #[trigger] stably_sorted(order, text_less(items), items.len() as int)
            &&& sorted == Seq::new(items.len(), |i: int| items[order[i] as int])
        };
    let less = text_less(items);
    lemma_text_less_consistent(items);
    assert forall|i: int, j: int| 0 <= i < j < sorted.len() implies !text::precedes(
        #[trigger] sorted[j],
        #[trigger] sorted[i],
    ) by {
        assert(placed_before(less, order[i] as int, order[j] as int));
        assert(sorted[i] == items[order[i] as int]);
        assert(sorted[j] == items[order[j] as int]);
        assert(less(order[j] as int, order[i] as int) == text::precedes(sorted[j], sorted[i]));
    }
    assert forall|s: Seq<char>| #[trigger] sorted.contains(s) <==> items.contains(s) by {
        if sorted.contains(s) {
            let i = choose|i: int| 0 <= i < sorted.len() && sorted[i] == s;
            assert(items[order[i] as int] == s);
        }
        if items.contains(s) {
            let p = choose|p: int| 0 <= p < items.len() && items[p] == s;
            lemma_lists_all_complete(order, items.len() as int, p as usize);
            let i = choose|i: int| 0 <= i < order.len() && order[i] == p as usize;
            assert(sorted[i] == s);
        }
    }
}

} // verus!
