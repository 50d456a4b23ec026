//! A map from base station numbers to values, kept in ascending order of the numbers.

use vstd::prelude::*;

verus! {

/// The numbers ascend strictly.
pub open spec fn ascending<T>(entries: Seq<(u8, T)>) -> bool {
    forall|i: int, j: int|
        0 <= i < j < entries.len() ==> (#[trigger] entries[i]).0 < (#[trigger] entries[j]).0
}

/// Something is stored for a number.
pub open spec fn holds<T>(entries: Seq<(u8, T)>, id: u8) -> bool {
    exists|i: int| 0 <= i < entries.len() && (#[trigger] entries[i]).0 == id
}

/// What is stored for a number.
pub open spec fn value_of<T>(entries: Seq<(u8, T)>, id: u8) -> Option<T> {
    if holds(entries, id) {
        Some(
            entries[choose|i: int| 0 <= i < entries.len() && (#[trigger] entries[i]).0 == id].1,
        )
    } else {
        None
    }
}

/// The numbers, in order.
pub open spec fn ids_of<T>(entries: Seq<(u8, T)>) -> Seq<u8> {
    Seq::new(entries.len(), |i: int| entries[i].0)
}

/// An entry is what its number is stored with.
pub proof fn lemma_entry<T>(entries: Seq<(u8, T)>, i: int)
    requires
        ascending(entries),
        0 <= i < entries.len(),
    ensures
        holds(entries, entries[i].0),
        value_of(entries, entries[i].0) == Some(entries[i].1),
{
    let id = entries[i].0;
    assert(holds(entries, id));
    let k = choose|k: int| 0 <= k < entries.len() && (#[trigger] entries[k]).0 == id;
    if k < i {
        assert(entries[k].0 < entries[i].0);
    } else if i < k {
        assert(entries[i].0 < entries[k].0);
    }
}

/// A number that is stored stands at some place.
pub proof fn lemma_place<T>(entries: Seq<(u8, T)>, id: u8) -> (i: int)
    requires
        ascending(entries),
        holds(entries, id),
    ensures
        0 <= i < entries.len(),
        entries[i].0 == id,
        value_of(entries, id) == Some(entries[i].1),
{
    let i = choose|i: int| 0 <= i < entries.len() && (#[trigger] entries[i]).0 == id;
    lemma_entry(entries, i);
    i
}

/// Two maps that store the same for every number are the same list.
pub proof fn law_same_content<T>(a: Seq<(u8, T)>, b: Seq<(u8, T)>)
    requires
        ascending(a),
        ascending(b),
        forall|id: u8| #[trigger] value_of(a, id) == value_of(b, id),
    ensures
        a == b,
    decreases a.len(),
{
    if a.len() == 0 {
        if b.len() > 0 {
            lemma_entry(b, 0);
            assert(value_of(a, b[0].0) == value_of(b, b[0].0));
        }
    } else {
        let last = a.len() - 1;
        lemma_entry(a, last);
        assert(value_of(a, a[last].0) == value_of(b, a[last].0));
        let k = lemma_place(b, a[last].0);
        if k < b.len() - 1 {
            let top = b.len() - 1;
            lemma_entry(b, top);
            assert(value_of(a, b[top].0) == value_of(b, b[top].0));
            let m = lemma_place(a, b[top].0);
            assert(b[k].0 < b[top].0);
            if m < last {
                assert(a[m].0 < a[last].0);
            }
        }
        let x = a.drop_last();
        let y = b.drop_last();
        assert forall|i: int, j: int| 0 <= i < j < x.len() implies (#[trigger] x[i]).0 < (
        #[trigger] x[j]).0 by {
            assert(a[i].0 < a[j].0);
        }
        assert forall|i: int, j: int| 0 <= i < j < y.len() implies (#[trigger] y[i]).0 < (
        #[trigger] y[j]).0 by {
            assert(b[i].0 < b[j].0);
        }
        assert forall|id: u8| #[trigger] value_of(x, id) == value_of(y, id) by {
            assert(value_of(a, id) == value_of(b, id));
            lemma_dropped(a, id);
            lemma_dropped(b, id);
        }
        law_same_content(x, y);
        assert(a =~= x.push(a[last]));
        assert(b =~= y.push(b[b.len() - 1]));
    }
}

proof fn lemma_dropped<T>(a: Seq<(u8, T)>, id: u8)
    requires
        ascending(a),
        a.len() > 0,
    ensures
        value_of(a.drop_last(), id) == (if id == a.last().0 {
            None
        } else {
            value_of(a, id)
        }),
{
    let x = a.drop_last();
    assert forall|i: int, j: int| 0 <= i < j < x.len() implies (#[trigger] x[i]).0 < (
    #[trigger] x[j]).0 by {
        assert(a[i].0 < a[j].0);
    }
    if holds(x, id) {
        let i = lemma_place(x, id);
        assert(a[i] == x[i]);
        assert(a[i].0 < a[a.len() - 1].0);
        lemma_entry(a, i);
    } else if holds(a, id) {
        let i = lemma_place(a, id);
        if i < a.len() - 1 {
            assert(x[i].0 == id);
        }
    }
}

/// The list with a value stored for a number, in place of what was there.
pub open spec fn inserted<T>(entries: Seq<(u8, T)>, id: u8, value: T) -> Seq<(u8, T)>
    decreases entries.len(),
{
    if entries.len() == 0 {
        seq![(id, value)]
    } else if entries.last().0 < id {
        entries.push((id, value))
    } else if entries.last().0 == id {
        entries.drop_last().push((id, value))
    } else {
        inserted(entries.drop_last(), id, value).push(entries.last())
    }
}

/// Storing a value changes what is stored for that number and nothing else.
pub proof fn law_inserted<T>(entries: Seq<(u8, T)>, id: u8, value: T)
    requires
        ascending(entries),
    ensures
        ascending(inserted(entries, id, value)),
        value_of(inserted(entries, id, value), id) == Some(value),
        forall|k: u8| k != id ==> #[trigger] value_of(inserted(entries, id, value), k) == value_of(
            entries,
            k,
        ),
        inserted(entries, id, value).len() == entries.len() + (if holds(entries, id) {
            0int
        } else {
            1int
        }),
        inserted(entries, id, value).len() > 0,
        inserted(entries, id, value).last().0 == (if entries.len() > 0 && entries.last().0 > id {
            entries.last().0
        } else {
            id
        }),
    decreases entries.len(),
{
    let after = inserted(entries, id, value);
    if entries.len() == 0 {
        lemma_entry(after, 0);
        assert forall|k: u8| k != id implies #[trigger] value_of(after, k) == value_of(
            entries,
            k,
        ) by {
            assert(!holds(entries, k));
            if holds(after, k) {
                let p = lemma_place(after, k);
            }
        }
    } else {
        let top = entries.len() - 1;
        let rest = entries.drop_last();
        assert forall|i: int, j: int| 0 <= i < j < rest.len() implies (#[trigger] rest[i]).0 < (
        #[trigger] rest[j]).0 by {
            assert(entries[i].0 < entries[j].0);
        }
        let base = if entries.last().0 < id {
            entries
        } else if entries.last().0 == id {
            rest
        } else {
            law_inserted(rest, id, value);
            inserted(rest, id, value)
        };
        assert(ascending(base));
        assert(after.drop_last() =~= base);
        assert forall|i: int, j: int| 0 <= i < j < after.len() implies (#[trigger] after[i]).0 < (
        #[trigger] after[j]).0 by {
            if j < base.len() {
                assert(base[i].0 < base[j].0);
            } else {
                assert(base[i].0 <= base[base.len() - 1].0) by {
                    if i < base.len() - 1 {
                        assert(base[i].0 < base[base.len() - 1].0);
                    }
                }
                if rest.len() > 0 {
                    assert(entries[rest.len() - 1].0 < entries[top].0);
                }
            }
        }
        lemma_dropped(after, id);
        lemma_entry(after, after.len() - 1);
        assert forall|k: u8| k != id implies #[trigger] value_of(after, k) == value_of(
            entries,
            k,
        ) by {
            lemma_dropped(after, k);
            lemma_dropped(entries, k);
            lemma_entry(entries, top);
        }
        if holds(entries, id) {
            let p = lemma_place(entries, id);
            if p < top {
                assert(entries[p].0 < entries[top].0);
                assert(rest[p].0 == id);
                assert(holds(rest, id));
            }
        } else {
            assert(entries[top].0 != id);
            if holds(rest, id) {
                let p = lemma_place(rest, id);
                assert(entries[p].0 == id);
            }
        }
    }
}

/// A map from base station numbers to values.
pub struct StationMap<T> {
    entries: Vec<(u8, T)>,
}

impl<T> View for StationMap<T> {
    type V = Seq<(u8, T)>;

    closed spec fn view(&self) -> Seq<(u8, T)> {
        self.entries@
    }
}

impl<T> StationMap<T> {
    #[verifier::type_invariant]
    spec fn in_order(self) -> bool {
        ascending(self.entries@)
    }

    /// A map that holds nothing.
    pub fn new() -> (map: StationMap<T>)
        ensures
            map@ == Seq::<(u8, T)>::empty(),
    {
        StationMap { entries: Vec::new() }
    }

    /// The number of entries.
    pub fn len(&self) -> (n: usize)
        ensures
            n == self@.len(),
            ascending(self@),
    {
        proof {
            use_type_invariant(self);
        }
        self.entries.len()
    }

    /// Whether the map holds nothing.
    pub fn is_empty(&self) -> (r: bool)
        ensures
            r == (self@.len() == 0),
    {
        self.entries.len() == 0
    }

    /// The entry at a place, in ascending order of the numbers.
    pub fn entry(&self, at: usize) -> (entry: &(u8, T))
        requires
            at < self@.len(),
        ensures
            *entry == self@[at as int],
            ascending(self@),
    {
        proof {
            use_type_invariant(self);
        }
        &self.entries[at]
    }

    /// The numbers, ascending.
    pub fn ids(&self) -> (ids: Vec<u8>)
        ensures
            ids@ == ids_of(self@),
            ascending(self@),
    {
        proof {
            use_type_invariant(self);
        }
        let mut ids: Vec<u8> = Vec::new();
        let mut i: usize = 0;
        while i < self.entries.len()
            invariant
                i <= self.entries@.len(),
                ids@ == ids_of(self@).take(i as int),
            decreases self.entries.len() - i,
        {
            ids.push(self.entries[i].0);
            i = i + 1;
            assert(ids@ =~= ids_of(self@).take(i as int));
        }
        assert(ids_of(self@).take(self@.len() as int) =~= ids_of(self@));
        ids
    }

    /// Whether something is stored for a number.
    pub fn contains(&self, id: u8) -> (r: bool)
        ensures
            r == holds(self@, id),
            ascending(self@),
    {
        match self.get(id) {
            Some(_) => true,
            None => false,
        }
    }

    /// What is stored for a number.
    pub fn get(&self, id: u8) -> (value: Option<&T>)
        ensures
            ascending(self@),
            value is Some <==> holds(self@, id),
            value matches Some(v) ==> value_of(self@, id) == Some(*v),
    {
        proof {
            use_type_invariant(self);
        }
        let mut i: usize = 0;
        while i < self.entries.len()
            invariant
                i <= self.entries@.len(),
                ascending(self.entries@),
                forall|k: int| 0 <= k < i ==> (#[trigger] self.entries@[k]).0 != id,
            decreases self.entries.len() - i,
        {
            if self.entries[i].0 == id {
                proof {
                    lemma_entry(self.entries@, i as int);
                }
                return Some(&self.entries[i].1);
            }
            i = i + 1;
        }
        None
    }

    /// Stores a value for a number, in place of what was there.
    pub fn insert(&mut self, id: u8, value: T)
        ensures
            ascending(old(self)@),
            final(self)@ == inserted(old(self)@, id, value),
    {
        proof {
            use_type_invariant(&*self);
        }
        let mut entries: Vec<(u8, T)> = Vec::new();
        std::mem::swap(&mut entries, &mut self.entries);
        let ghost before = entries@;
        let mut at: usize = 0;
        while at < entries.len() && entries[at].0 < id
            invariant
                at <= entries@.len(),
                entries@ == before,
                forall|k: int| 0 <= k < at ==> (#[trigger] before[k]).0 < id,
            decreases entries.len() - at,
        {
            at = at + 1;
        }
        let replaces: bool = at < entries.len() && entries[at].0 == id;
        if replaces {
            entries[at] = (id, value);
        } else {
            entries.insert(at, (id, value));
        }
        proof {
            let after = entries@;
            let shift: int = if replaces { 0 } else { 1 };
            assert(forall|i: int| 0 <= i < at ==> #[trigger] after[i] == before[i]);
            assert(forall|i: int| at < i < after.len() ==> #[trigger] after[i] == before[i - shift]);
            assert(after[at as int] == (id, value));
            assert forall|i: int, j: int| 0 <= i < j < after.len() implies (#[trigger] after[i]).0
                < (#[trigger] after[j]).0 by {
                if j < at {
                    assert(before[i].0 < before[j].0);
                } else if j == at {
                    assert(before[i].0 < id);
                } else {
                    if i < at {
                        assert(before[i].0 < before[j - shift].0);
                    } else if i == at {
                        if at < j - shift {
                            assert(before[at as int].0 < before[j - shift].0);
                        }
                    } else {
                        assert(before[i - shift].0 < before[j - shift].0);
                    }
                }
            }
            lemma_entry(after, at as int);
            assert forall|k: u8| k != id implies #[trigger] value_of(after, k) == value_of(
                before,
                k,
            ) by {
                if holds(before, k) {
                    let p = lemma_place(before, k);
                    let q: int = if p < at { p } else { p + shift };
                    assert(after[q] == before[p]);
                    lemma_entry(after, q);
                } else if holds(after, k) {
                    let q = lemma_place(after, k);
                    let p: int = if q < at { q } else { q - shift };
                    assert(after[q] == before[p]);
                    assert(holds(before, k));
                }
            }
            law_inserted(before, id, value);
            assert forall|k: u8| #[trigger] value_of(after, k) == value_of(
                inserted(before, id, value),
                k,
            ) by {
                if k != id {
                    assert(value_of(after, k) == value_of(before, k));
                }
            }
            law_same_content(after, inserted(before, id, value));
        }
        self.entries = entries;
    }
}

impl<T: Copy> StationMap<T> {
    /// A copy of the map.
    pub fn copied(&self) -> (map: StationMap<T>)
        ensures
            map@ == self@,
            ascending(self@),
    {
        proof {
            use_type_invariant(self);
        }
        let mut entries: Vec<(u8, T)> = Vec::new();
        let mut i: usize = 0;
        while i < self.entries.len()
            invariant
                i <= self.entries@.len(),
                entries@ == self.entries@.take(i as int),
            decreases self.entries.len() - i,
        {
            entries.push((self.entries[i].0, self.entries[i].1));
            i = i + 1;
            assert(entries@ =~= self.entries@.take(i as int));
        }
        assert(self.entries@.take(self.entries@.len() as int) =~= self.entries@);
        StationMap { entries }
    }
}

} // verus!
