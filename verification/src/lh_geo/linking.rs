//! How base stations are linked by the samples that see several of them.

use crate::lh_geo::initial_estimator::LighthouseInitialEstimator;
use crate::lh_geo::sample;
use crate::lh_geo::sample::{LhCfPoseSampleWrapper, WrapperView};
use crate::lh_geo::solution;
use crate::lh_geo::solution::{LighthouseGeometrySolution, SolutionView};
use crate::lh_geo::station_map;
use crate::lh_geo::station_map::StationMap;
use vstd::prelude::*;

verus! {

// ---------------------------------------------------------------------------
// Counting
// ---------------------------------------------------------------------------

/// The count for a base station.
pub open spec fn count_of(counts: Seq<(u8, u32)>, id: u8) -> int {
    match station_map::value_of(counts, id) {
        Some(n) => n as int,
        None => 0,
    }
}

/// The counts of the links of a base station.
pub open spec fn links_of(links: Seq<(u8, Seq<(u8, u32)>)>, id: u8) -> Seq<(u8, u32)> {
    match station_map::value_of(links, id) {
        Some(counts) => counts,
        None => Seq::empty(),
    }
}

/// The count of the links between two base stations.
pub open spec fn link_of(links: Seq<(u8, Seq<(u8, u32)>)>, a: u8, b: u8) -> int {
    count_of(links_of(links, a), b)
}

/// A link between two base stations was counted.
pub open spec fn has_link(links: Seq<(u8, Seq<(u8, u32)>)>, a: u8, b: u8) -> bool {
    station_map::holds(links_of(links, a), b)
}

/// The links are in order.
pub open spec fn links_ordered(links: Seq<(u8, Seq<(u8, u32)>)>) -> bool {
    &&& station_map::ascending(links)
    &&& forall|a: u8| station_map::ascending(#[trigger] links_of(links, a))
}

/// A base station is in sight in a sample.
pub open spec fn in_sight(s: WrapperView, id: u8) -> bool {
    station_map::holds(s.sample.angles, id)
}

/// The number of the listed samples in which a base station is in sight.
pub open spec fn times_seen(samples: Seq<WrapperView>, kept: Seq<usize>, id: u8) -> int
    decreases kept.len(),
{
    if kept.len() == 0 {
        0
    } else {
        times_seen(samples, kept.drop_last(), id) + (if in_sight(samples[kept.last() as int], id) {
            1int
        } else {
            0int
        })
    }
}

/// The number of the listed samples in which two different base stations are both in sight.
pub open spec fn times_linked(samples: Seq<WrapperView>, kept: Seq<usize>, a: u8, b: u8) -> int
    decreases kept.len(),
{
    if kept.len() == 0 {
        0
    } else {
        times_linked(samples, kept.drop_last(), a, b) + (if a != b && in_sight(
            samples[kept.last() as int],
            a,
        ) && in_sight(samples[kept.last() as int], b) {
            1int
        } else {
            0int
        })
    }
}

/// The number of links is the same seen from either side, is no larger than the number of
/// samples, and no base station is linked to itself.
pub proof fn law_links_symmetric(samples: Seq<WrapperView>, kept: Seq<usize>, a: u8, b: u8)
    ensures
        times_linked(samples, kept, a, b) == times_linked(samples, kept, b, a),
        0 <= times_linked(samples, kept, a, b) <= times_seen(samples, kept, a),
        0 <= times_seen(samples, kept, a) <= kept.len(),
        times_linked(samples, kept, a, a) == 0,
    decreases kept.len(),
{
    if kept.len() > 0 {
        law_links_symmetric(samples, kept.drop_last(), a, b);
    }
}

/// Counts have grown by what was seen.
pub open spec fn counts_grown(
    before: Seq<(u8, u32)>,
    after: Seq<(u8, u32)>,
    more: spec_fn(u8) -> int,
) -> bool {
    &&& station_map::ascending(after)
    &&& forall|a: u8| #[trigger] count_of(after, a) == count_of(before, a) + more(a)
    &&& forall|a: u8| #[trigger]
        station_map::holds(after, a) <==> station_map::holds(before, a) || more(a) > 0
}

/// Links have grown by what was seen.
pub open spec fn links_grown(
    before: Seq<(u8, Seq<(u8, u32)>)>,
    after: Seq<(u8, Seq<(u8, u32)>)>,
    more: spec_fn(u8, u8) -> int,
) -> bool {
    &&& links_ordered(after)
    &&& forall|a: u8, b: u8| #[trigger] link_of(after, a, b) == link_of(before, a, b) + more(a, b)
    &&& forall|a: u8, b: u8| #[trigger]
        has_link(after, a, b) <==> has_link(before, a, b) || more(a, b) > 0
    &&& forall|a: u8| #[trigger]
        station_map::holds(after, a) <==> station_map::holds(before, a) || exists|b: u8|
            #[trigger] more(a, b) > 0
}

fn add_one(counts: &mut StationMap<u32>, id: u8)
    requires
        count_of(old(counts)@, id) < u32::MAX,
    ensures
        station_map::ascending(old(counts)@),
        final(counts)@ == station_map::inserted(
            old(counts)@,
            id,
            (count_of(old(counts)@, id) + 1) as u32,
        ),
{
    let n: u32 = match counts.get(id) {
        Some(n) => *n,
        None => 0,
    };
    counts.insert(id, n + 1);
}

/// The counts of links as sequences are in the same order and hold the same numbers.
pub proof fn lemma_link_views(links: Seq<(u8, StationMap<u32>)>, id: u8)
    ensures
        station_map::ascending(links) <==> station_map::ascending(solution::link_views(links)),
        station_map::holds(links, id) <==> station_map::holds(solution::link_views(links), id),
        station_map::ascending(links) && station_map::holds(links, id) ==> station_map::value_of(
            solution::link_views(links),
            id,
        ) == Some(station_map::value_of(links, id)->0@),
{
    let views = solution::link_views(links);
    assert(forall|i: int|
        0 <= i < links.len() ==> (#[trigger] views[i]).0 == links[i].0 && views[i].1
            == links[i].1@);
    assert(forall|i: int| 0 <= i < links.len() ==> (#[trigger] links[i]).0 == views[i].0);
    if station_map::holds(links, id) {
        let i = choose|i: int| 0 <= i < links.len() && (#[trigger] links[i]).0 == id;
        assert(views[i].0 == id);
        if station_map::ascending(links) {
            station_map::lemma_entry(links, i);
            assert(station_map::ascending(views));
            station_map::lemma_entry(views, i);
        }
    }
    if station_map::holds(views, id) {
        let i = choose|i: int| 0 <= i < views.len() && (#[trigger] views[i]).0 == id;
        assert(links[i].0 == id);
    }
    if station_map::ascending(views) {
        assert forall|i: int, j: int| 0 <= i < j < links.len() implies (#[trigger] links[i]).0 < (
        #[trigger] links[j]).0 by {
            assert(views[i].0 < views[j].0);
        }
    }
}

proof fn lemma_link_views_inserted(links: Seq<(u8, StationMap<u32>)>, id: u8, counts: StationMap<u32>)
    ensures
        solution::link_views(station_map::inserted(links, id, counts)) == station_map::inserted(
            solution::link_views(links),
            id,
            counts@,
        ),
    decreases links.len(),
{
    let views = solution::link_views(links);
    let after = solution::link_views(station_map::inserted(links, id, counts));
    if links.len() == 0 {
        assert(after =~= seq![(id, counts@)]);
    } else {
        let rest = links.drop_last();
        assert(solution::link_views(rest) =~= views.drop_last());
        if links.last().0 < id {
            assert(after =~= views.push((id, counts@)));
        } else if links.last().0 == id {
            assert(after =~= views.drop_last().push((id, counts@)));
        } else {
            lemma_link_views_inserted(rest, id, counts);
            assert(after =~= solution::link_views(
                station_map::inserted(rest, id, counts),
            ).push(views.last()));
        }
    }
}

/// The links with one more between two base stations.
pub open spec fn with_link(links: Seq<(u8, Seq<(u8, u32)>)>, a: u8, b: u8) -> Seq<
    (u8, Seq<(u8, u32)>),
> {
    station_map::inserted(
        links,
        a,
        station_map::inserted(links_of(links, a), b, (link_of(links, a, b) + 1) as u32),
    )
}

fn add_link(links: &mut StationMap<StationMap<u32>>, a: u8, b: u8)
    requires
        link_of(solution::link_views(old(links)@), a, b) < u32::MAX,
    ensures
        solution::link_views(final(links)@) == with_link(solution::link_views(old(links)@), a, b),
        station_map::ascending(solution::link_views(old(links)@)),
        station_map::ascending(links_of(solution::link_views(old(links)@), a)),
{
    let mut counts: StationMap<u32> = match links.get(a) {
        Some(counts) => counts.copied(),
        None => StationMap::new(),
    };
    proof {
        lemma_link_views(links@, a);
        assert(counts@ == links_of(solution::link_views(links@), a));
    }
    let ghost before = links@;
    add_one(&mut counts, b);
    proof {
        lemma_link_views_inserted(before, a, counts);
    }
    links.insert(a, counts);
}

proof fn lemma_with_link(links: Seq<(u8, Seq<(u8, u32)>)>, a: u8, b: u8)
    requires
        links_ordered(links),
        link_of(links, a, b) < u32::MAX,
    ensures
        links_grown(
            links,
            with_link(links, a, b),
            |x: u8, y: u8|
                if x == a && y == b {
                    1int
                } else {
                    0int
                },
        ),
{
    let more = |x: u8, y: u8|
        if x == a && y == b {
            1int
        } else {
            0int
        };
    let inner = links_of(links, a);
    let counts = station_map::inserted(inner, b, (link_of(links, a, b) + 1) as u32);
    let after = with_link(links, a, b);
    station_map::law_inserted(inner, b, (link_of(links, a, b) + 1) as u32);
    station_map::law_inserted(links, a, counts);
    assert(station_map::value_of(after, a) == Some(counts));
    assert forall|x: u8| station_map::ascending(#[trigger] links_of(after, x)) by {
        if x != a {
            assert(station_map::value_of(after, x) == station_map::value_of(links, x));
            assert(links_of(after, x) == links_of(links, x));
        }
    }
    assert forall|x: u8, y: u8| #[trigger] link_of(after, x, y) == link_of(links, x, y) + more(
        x,
        y,
    ) by {
        if x != a {
            assert(station_map::value_of(after, x) == station_map::value_of(links, x));
        } else if y != b {
            assert(station_map::value_of(counts, y) == station_map::value_of(inner, y));
        }
    }
    assert forall|x: u8, y: u8| #[trigger] has_link(after, x, y) <==> has_link(links, x, y) || more(
        x,
        y,
    ) > 0 by {
        if x != a {
            assert(station_map::value_of(after, x) == station_map::value_of(links, x));
        } else if y != b {
            assert(station_map::value_of(counts, y) == station_map::value_of(inner, y));
        } else {
            assert(station_map::value_of(counts, y) is Some);
        }
    }
    assert forall|x: u8| #[trigger] station_map::holds(after, x) <==> station_map::holds(links, x)
        || exists|y: u8| #[trigger] more(x, y) > 0 by {
        if x == a {
            assert(station_map::value_of(after, x) is Some);
            assert(more(a, b) > 0);
        } else {
            assert(station_map::value_of(after, x) == station_map::value_of(links, x));
        }
    }
}

proof fn lemma_links_grown_twice(
    one: Seq<(u8, Seq<(u8, u32)>)>,
    two: Seq<(u8, Seq<(u8, u32)>)>,
    three: Seq<(u8, Seq<(u8, u32)>)>,
    first: spec_fn(u8, u8) -> int,
    second: spec_fn(u8, u8) -> int,
    both: spec_fn(u8, u8) -> int,
)
    requires
        links_grown(one, two, first),
        links_grown(two, three, second),
        forall|a: u8, b: u8| #[trigger] both(a, b) == first(a, b) + second(a, b),
        forall|a: u8, b: u8| #[trigger] first(a, b) >= 0,
        forall|a: u8, b: u8| #[trigger] second(a, b) >= 0,
    ensures
        links_grown(one, three, both),
{
    assert forall|a: u8, b: u8| #[trigger] link_of(three, a, b) == link_of(one, a, b) + both(
        a,
        b,
    ) by {
        assert(link_of(two, a, b) == link_of(one, a, b) + first(a, b));
    }
    assert forall|a: u8, b: u8| #[trigger] has_link(three, a, b) <==> has_link(one, a, b) || both(
        a,
        b,
    ) > 0 by {
        assert(has_link(two, a, b) <==> has_link(one, a, b) || first(a, b) > 0);
        assert(both(a, b) == first(a, b) + second(a, b));
        assert(first(a, b) >= 0 && second(a, b) >= 0);
    }
    assert forall|a: u8| #[trigger] station_map::holds(three, a) <==> station_map::holds(one, a)
        || exists|b: u8| #[trigger] both(a, b) > 0 by {
        assert(station_map::holds(two, a) <==> station_map::holds(one, a) || exists|b: u8|
            #[trigger] first(a, b) > 0);
        if exists|b: u8| #[trigger] first(a, b) > 0 {
            let b = choose|b: u8| #[trigger] first(a, b) > 0;
            assert(both(a, b) > 0 && second(a, b) >= 0);
        }
        if exists|b: u8| #[trigger] second(a, b) > 0 {
            let b = choose|b: u8| #[trigger] second(a, b) > 0;
            assert(both(a, b) > 0 && first(a, b) >= 0);
        }
        if exists|b: u8| #[trigger] both(a, b) > 0 {
            let b = choose|b: u8| #[trigger] both(a, b) > 0;
            assert(first(a, b) > 0 || second(a, b) > 0);
        }
    }
}

/// One where a base station is among those listed, none otherwise.
pub open spec fn is_among(ids: Seq<u8>, a: u8) -> int {
    if ids.contains(a) {
        1
    } else {
        0
    }
}

/// One where two different base stations are both among those listed, none otherwise.
pub open spec fn are_among(ids: Seq<u8>, a: u8, b: u8) -> int {
    if a != b && ids.contains(a) && ids.contains(b) {
        1
    } else {
        0
    }
}

/// One link from a base station to each other one that is listed.
pub open spec fn links_from(ids: Seq<u8>, a: u8) -> spec_fn(u8, u8) -> int {
    |x: u8, y: u8|
        if x == a && y != a {
            is_among(ids, y)
        } else {
            0int
        }
}

/// One link from each of some base stations to each other one that is listed.
pub open spec fn links_between(some: Seq<u8>, ids: Seq<u8>) -> spec_fn(u8, u8) -> int {
    |x: u8, y: u8|
        if x != y && some.contains(x) && ids.contains(y) {
            1int
        } else {
            0int
        }
}

/// One for each base station that is listed.
pub open spec fn one_each(ids: Seq<u8>) -> spec_fn(u8) -> int {
    |a: u8| is_among(ids, a)
}

/// Links from one base station to all listed.
fn add_links_of(ids: &Vec<u8>, a: u8, links: &mut StationMap<StationMap<u32>>)
    requires
        ids@.no_duplicates(),
        links_ordered(solution::link_views(old(links)@)),
        forall|b: u8| #[trigger]
            ids@.contains(b) && b != a ==> link_of(solution::link_views(old(links)@), a, b)
                < u32::MAX,
    ensures
        links_grown(
            solution::link_views(old(links)@),
            solution::link_views(final(links)@),
            links_from(ids@, a),
        ),
{
    let ghost before = solution::link_views(links@);
    let mut j: usize = 0;
    proof {
        let none = links_from(ids@.take(0), a);
        assert(forall|x: u8, y: u8| #[trigger] none(x, y) == 0);
        assert(links_grown(before, before, none));
    }
    while j < ids.len()
        invariant
            j <= ids@.len(),
            ids@.no_duplicates(),
            forall|b: u8| #[trigger]
                ids@.contains(b) && b != a ==> link_of(before, a, b) < u32::MAX,
            links_grown(
                before,
                solution::link_views(links@),
                links_from(ids@.take(j as int), a),
            ),
        decreases ids.len() - j,
    {
        let b: u8 = ids[j];
        let ghost at = solution::link_views(links@);
        assert(ids@.take(j + 1) =~= ids@.take(j as int).push(b));
        assert(!ids@.take(j as int).contains(b)) by {
            if ids@.take(j as int).contains(b) {
                let k = choose|k: int| 0 <= k < j && ids@.take(j as int)[k] == b;
                assert(ids@[k] == ids@[j as int]);
            }
        }
        assert forall|y: u8| is_among(ids@.take(j + 1), y) == is_among(ids@.take(j as int), y) + (
        if y == b {
            1int
        } else {
            0int
        }) by {
            let less = ids@.take(j as int);
            let more = ids@.take(j + 1);
            if less.contains(y) {
                let k = choose|k: int| 0 <= k < less.len() && less[k] == y;
                assert(more[k] == y);
            }
            if more.contains(y) {
                let k = choose|k: int| 0 <= k < more.len() && more[k] == y;
                if k < j {
                    assert(less[k] == y);
                }
            }
            assert(more[j as int] == b);
        }
        if a != b {
            assert(ids@.contains(b));
            assert(link_of(at, a, b) == link_of(before, a, b) + links_from(ids@.take(j as int), a)(
                a,
                b,
            ));
            add_link(links, a, b);
            proof {
                lemma_with_link(at, a, b);
                let one = |x: u8, y: u8|
                    if x == a && y == b {
                        1int
                    } else {
                        0int
                    };
                lemma_links_grown_twice(
                    before,
                    at,
                    solution::link_views(links@),
                    links_from(ids@.take(j as int), a),
                    one,
                    links_from(ids@.take(j + 1), a),
                );
            }
        } else {
            assert(links_from(ids@.take(j + 1), a) =~= links_from(ids@.take(j as int), a));
        }
        j = j + 1;
    }
    assert(ids@.take(ids@.len() as int) =~= ids@);
}

fn add_sample(
    ids: &Vec<u8>,
    counts: &mut StationMap<u32>,
    links: &mut StationMap<StationMap<u32>>,
)
    requires
        ids@.no_duplicates(),
        station_map::ascending(old(counts)@),
        links_ordered(solution::link_views(old(links)@)),
        forall|a: u8| #[trigger] ids@.contains(a) ==> count_of(old(counts)@, a) < u32::MAX,
        forall|a: u8, b: u8|
            are_among(ids@, a, b) > 0 ==> #[trigger] link_of(
                solution::link_views(old(links)@),
                a,
                b,
            ) < u32::MAX,
    ensures
        counts_grown(old(counts)@, final(counts)@, one_each(ids@)),
        links_grown(
            solution::link_views(old(links)@),
            solution::link_views(final(links)@),
            links_between(ids@, ids@),
        ),
{
    let ghost counts_before = counts@;
    let ghost before = solution::link_views(links@);
    let mut i: usize = 0;
    proof {
        let none = links_between(ids@.take(0), ids@);
        assert(forall|x: u8, y: u8| #[trigger] none(x, y) == 0);
        assert(links_grown(before, before, none));
        let nothing = one_each(ids@.take(0));
        assert(forall|x: u8| #[trigger] nothing(x) == 0);
        assert(counts_grown(counts_before, counts_before, nothing));
    }
    while i < ids.len()
        invariant
            i <= ids@.len(),
            ids@.no_duplicates(),
            forall|a: u8| #[trigger] ids@.contains(a) ==> count_of(counts_before, a) < u32::MAX,
            forall|a: u8, b: u8|
                are_among(ids@, a, b) > 0 ==> #[trigger] link_of(before, a, b) < u32::MAX,
            counts_grown(counts_before, counts@, one_each(ids@.take(i as int))),
            links_grown(
                before,
                solution::link_views(links@),
                links_between(ids@.take(i as int), ids@),
            ),
        decreases ids.len() - i,
    {
        let a: u8 = ids[i];
        let ghost at = solution::link_views(links@);
        let ghost counts_at = counts@;
        let ghost less = ids@.take(i as int);
        let ghost more = ids@.take(i + 1);
        assert(more =~= less.push(a));
        assert(ids@.contains(a));
        assert(!less.contains(a)) by {
            if less.contains(a) {
                let k = choose|k: int| 0 <= k < i && less[k] == a;
                assert(ids@[k] == ids@[i as int]);
            }
        }
        assert forall|y: u8| more.contains(y) <==> less.contains(y) || y == a by {
            if less.contains(y) {
                let k = choose|k: int| 0 <= k < less.len() && less[k] == y;
                assert(more[k] == y);
            }
            if more.contains(y) {
                let k = choose|k: int| 0 <= k < more.len() && more[k] == y;
                if k < i {
                    assert(less[k] == y);
                }
            }
            assert(more[i as int] == a);
        }
        assert(count_of(counts_at, a) == count_of(counts_before, a) + one_each(less)(a));
        add_one(counts, a);
        proof {
            let n = (count_of(counts_at, a) + 1) as u32;
            station_map::law_inserted(counts_at, a, n);
            assert forall|x: u8| #[trigger] count_of(counts@, x) == count_of(counts_before, x)
                + one_each(more)(x) by {
                assert(count_of(counts_at, x) == count_of(counts_before, x) + one_each(less)(x));
                if x != a {
                    assert(station_map::value_of(counts@, x) == station_map::value_of(
                        counts_at,
                        x,
                    ));
                }
            }
            assert forall|x: u8| #[trigger] station_map::holds(counts@, x) <==> station_map::holds(
                counts_before,
                x,
            ) || one_each(more)(x) > 0 by {
                assert(station_map::holds(counts_at, x) <==> station_map::holds(counts_before, x)
                    || one_each(less)(x) > 0);
                if x != a {
                    assert(station_map::value_of(counts@, x) == station_map::value_of(
                        counts_at,
                        x,
                    ));
                } else {
                    assert(station_map::value_of(counts@, x) is Some);
                }
            }
        }
        assert forall|b: u8| #[trigger] ids@.contains(b) && b != a implies link_of(at, a, b)
            < u32::MAX by {
            assert(link_of(at, a, b) == link_of(before, a, b) + links_between(less, ids@)(a, b));
            assert(are_among(ids@, a, b) > 0);
        }
        add_links_of(ids, a, links);
        proof {
            lemma_links_grown_twice(
                before,
                at,
                solution::link_views(links@),
                links_between(less, ids@),
                links_from(ids@, a),
                links_between(more, ids@),
            );
        }
        i = i + 1;
    }
    assert(ids@.take(ids@.len() as int) =~= ids@);
}

impl LighthouseInitialEstimator {
    /// Counts in how many of the kept samples each base station and each two of them are in
    /// sight. With links between more than two base stations, two links are asked of each.
    pub fn build_link_stats(
        matched_samples: &Vec<LhCfPoseSampleWrapper>,
        cleaned_indices: &Vec<usize>,
        solution: &mut LighthouseGeometrySolution,
    )
        requires
            forall|i: int|
                0 <= i < cleaned_indices@.len() ==> (#[trigger] cleaned_indices@[i])
                    < matched_samples@.len(),
            station_map::ascending(old(solution)@.bs_sample_count),
            links_ordered(old(solution)@.link_count),
            forall|a: u8| #[trigger]
                count_of(old(solution)@.bs_sample_count, a) + cleaned_indices@.len() <= u32::MAX,
            forall|a: u8, b: u8| #[trigger]
                link_of(old(solution)@.link_count, a, b) + cleaned_indices@.len() <= u32::MAX,
        ensures
            counts_grown(
                old(solution)@.bs_sample_count,
                final(solution)@.bs_sample_count,
                seen_by(sample::wrapper_views(matched_samples@), cleaned_indices@),
            ),
            links_grown(
                old(solution)@.link_count,
                final(solution)@.link_count,
                linked_by(sample::wrapper_views(matched_samples@), cleaned_indices@),
            ),
            final(solution)@ == (SolutionView {
                bs_sample_count: final(solution)@.bs_sample_count,
                link_count: final(solution)@.link_count,
                link_count_ok_threshold: if final(solution)@.link_count.len() > 2 {
                    2
                } else {
                    old(solution)@.link_count_ok_threshold
                },
                ..old(solution)@
            }),
    {
        let ghost views = sample::wrapper_views(matched_samples@);
        let ghost before = solution@;
        let n: usize = cleaned_indices.len();
        let mut i: usize = 0;
        proof {
            let none = seen_by(views, cleaned_indices@.take(0));
            assert(forall|a: u8| #[trigger] none(a) == 0);
            let nothing = linked_by(views, cleaned_indices@.take(0));
            assert(forall|a: u8, b: u8| #[trigger] nothing(a, b) == 0);
        }
        while i < n
            invariant
                i <= n,
                n == cleaned_indices@.len(),
                views == sample::wrapper_views(matched_samples@),
                forall|k: int|
                    0 <= k < n ==> (#[trigger] cleaned_indices@[k]) < matched_samples@.len(),
                forall|a: u8| #[trigger] count_of(before.bs_sample_count, a) + n <= u32::MAX,
                forall|a: u8, b: u8| #[trigger]
                    link_of(before.link_count, a, b) + n <= u32::MAX,
                counts_grown(
                    before.bs_sample_count,
                    solution@.bs_sample_count,
                    seen_by(views, cleaned_indices@.take(i as int)),
                ),
                links_grown(
                    before.link_count,
                    solution@.link_count,
                    linked_by(views, cleaned_indices@.take(i as int)),
                ),
                solution@ == (SolutionView {
                    bs_sample_count: solution@.bs_sample_count,
                    link_count: solution@.link_count,
                    ..before
                }),
            decreases n - i,
        {
            let ghost at = solution@;
            let ghost less = cleaned_indices@.take(i as int);
            let ghost more = cleaned_indices@.take(i + 1);
            let place: usize = cleaned_indices[i];
            let ids = matched_samples[place].base_station_ids();
            let ghost s = views[place as int];
            assert(more.drop_last() =~= less);
            assert(more.last() == place);
            assert forall|a: u8| #[trigger] ids@.contains(a) <==> in_sight(s, a) by {
                if ids@.contains(a) {
                    let k = choose|k: int| 0 <= k < ids@.len() && ids@[k] == a;
                    assert(s.sample.angles[k].0 == a);
                }
                if in_sight(s, a) {
                    let k = choose|k: int|
                        0 <= k < s.sample.angles.len() && (#[trigger] s.sample.angles[k]).0 == a;
                    assert(ids@[k] == a);
                }
            }
            assert(ids@.no_duplicates()) by {
                assert forall|k: int, l: int|
                    0 <= k < ids@.len() && 0 <= l < ids@.len() && k != l implies ids@[k]
                    != ids@[l] by {
                    if k < l {
                        assert(s.sample.angles[k].0 < s.sample.angles[l].0);
                    } else {
                        assert(s.sample.angles[l].0 < s.sample.angles[k].0);
                    }
                }
            }
            assert forall|a: u8| #[trigger] ids@.contains(a) implies count_of(
                at.bs_sample_count,
                a,
            ) < u32::MAX by {
                law_links_symmetric(views, less, a, a);
                assert(count_of(at.bs_sample_count, a) == count_of(before.bs_sample_count, a)
                    + seen_by(views, less)(a));
                assert(count_of(before.bs_sample_count, a) + n <= u32::MAX);
            }
            assert forall|a: u8, b: u8| are_among(ids@, a, b) > 0 implies #[trigger] link_of(
                at.link_count,
                a,
                b,
            ) < u32::MAX by {
                law_links_symmetric(views, less, a, b);
                assert(link_of(at.link_count, a, b) == link_of(before.link_count, a, b)
                    + linked_by(views, less)(a, b));
                assert(link_of(before.link_count, a, b) + n <= u32::MAX);
            }
            add_sample(&ids, &mut solution.bs_sample_count, &mut solution.link_count);
            proof {
                lemma_counts_grown_twice(
                    before.bs_sample_count,
                    at.bs_sample_count,
                    solution@.bs_sample_count,
                    views,
                    less,
                    more,
                    ids@,
                );
                assert forall|a: u8, b: u8| #[trigger] linked_by(views, less)(a, b) >= 0 by {
                    law_links_symmetric(views, less, a, b);
                }
                lemma_links_grown_twice(
                    before.link_count,
                    at.link_count,
                    solution@.link_count,
                    linked_by(views, less),
                    links_between(ids@, ids@),
                    linked_by(views, more),
                );
            }
            i = i + 1;
        }
        assert(cleaned_indices@.take(n as int) =~= cleaned_indices@);
        if solution.link_count.len() > 2 {
            solution.link_count_ok_threshold = 2;
        }
    }
}

/// How often each base station is in sight in the listed samples.
pub open spec fn seen_by(samples: Seq<WrapperView>, kept: Seq<usize>) -> spec_fn(u8) -> int {
    |a: u8| times_seen(samples, kept, a)
}

/// How often each two base stations are in sight in the listed samples.
pub open spec fn linked_by(samples: Seq<WrapperView>, kept: Seq<usize>) -> spec_fn(u8, u8) -> int {
    |a: u8, b: u8| times_linked(samples, kept, a, b)
}

proof fn lemma_counts_grown_twice(
    one: Seq<(u8, u32)>,
    two: Seq<(u8, u32)>,
    three: Seq<(u8, u32)>,
    samples: Seq<WrapperView>,
    less: Seq<usize>,
    more: Seq<usize>,
    ids: Seq<u8>,
)
    requires
        counts_grown(one, two, seen_by(samples, less)),
        counts_grown(two, three, one_each(ids)),
        more.len() > 0,
        more.drop_last() == less,
        forall|a: u8| #[trigger] ids.contains(a) <==> in_sight(samples[more.last() as int], a),
    ensures
        counts_grown(one, three, seen_by(samples, more)),
{
    assert forall|a: u8| #[trigger] count_of(three, a) == count_of(one, a) + seen_by(samples, more)(
        a,
    ) by {
        assert(count_of(two, a) == count_of(one, a) + seen_by(samples, less)(a));
        assert(ids.contains(a) <==> in_sight(samples[more.last() as int], a));
    }
    assert forall|a: u8| #[trigger] station_map::holds(three, a) <==> station_map::holds(one, a)
        || seen_by(samples, more)(a) > 0 by {
        assert(station_map::holds(two, a) <==> station_map::holds(one, a) || seen_by(
            samples,
            less,
        )(a) > 0);
        assert(ids.contains(a) <==> in_sight(samples[more.last() as int], a));
        law_links_symmetric(samples, less, a, a);
    }
}

/// A sample counts once for each base station in sight, and once for each two different ones.
pub proof fn law_sample_counted(samples: Seq<WrapperView>, kept: Seq<usize>, k: usize, a: u8, b: u8)
    ensures
        times_seen(samples, Seq::empty(), a) == 0,
        times_linked(samples, Seq::empty(), a, b) == 0,
        times_seen(samples, kept.push(k), a) == times_seen(samples, kept, a) + (
        if station_map::holds(samples[k as int].sample.angles, a) {
            1int
        } else {
            0
        }),
        times_linked(samples, kept.push(k), a, b) == times_linked(samples, kept, a, b) + (if a != b
            && station_map::holds(samples[k as int].sample.angles, a) && station_map::holds(
            samples[k as int].sample.angles,
            b,
        ) {
            1int
        } else {
            0
        }),
{
    assert(kept.push(k).drop_last() =~= kept);
}

/// The count of a base station is what is stored for it, and zero where nothing is.
pub proof fn law_counts(counts: Seq<(u8, u32)>, links: Seq<(u8, Seq<(u8, u32)>)>, i: int, id: u8)
    requires
        station_map::ascending(counts),
        station_map::ascending(links),
    ensures
        0 <= i < counts.len() ==> count_of(counts, counts[i].0) == counts[i].1,
        !station_map::holds(counts, id) ==> count_of(counts, id) == 0,
        0 <= i < links.len() ==> links_of(links, links[i].0) == links[i].1,
        !station_map::holds(links, id) ==> links_of(links, id).len() == 0,
{
    if 0 <= i < counts.len() {
        station_map::lemma_entry(counts, i);
    }
    if 0 <= i < links.len() {
        station_map::lemma_entry(links, i);
    }
}

} // verus!
