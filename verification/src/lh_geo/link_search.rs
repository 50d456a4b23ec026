//! Finding the poses of all base stations from that of one: a sample that sees a base station of
//! known pose gives the poses of all others it sees.

use crate::lh_geo::initial_estimator;
use crate::lh_geo::initial_estimator::LighthouseInitialEstimator;
use crate::lh_geo::station_map;
use crate::lh_geo::station_map::StationMap;
use crate::lh_geo::types::Pose;
use crate::lists;
use vstd::prelude::*;
use vstd::string::*;

verus! {

/// A base station occurs in some sample.
pub open spec fn occurs(samples: Seq<Seq<(u8, Pose)>>, id: u8) -> bool {
    exists|s: int| 0 <= s < samples.len() && station_map::holds(#[trigger] samples[s], id)
}

/// Two base stations occur in the same sample.
pub open spec fn together(samples: Seq<Seq<(u8, Pose)>>, a: u8, b: u8) -> bool {
    exists|s: int|
        0 <= s < samples.len() && station_map::holds(#[trigger] samples[s], a)
            && station_map::holds(samples[s], b)
}

/// A chain of base stations, each in the same sample as the next.
pub open spec fn is_chain(samples: Seq<Seq<(u8, Pose)>>, chain: Seq<u8>) -> bool {
    &&& chain.len() > 0
    &&& forall|i: int, j: int|
        0 <= i && j == i + 1 && j < chain.len() ==> together(
            samples,
            #[trigger] chain[i],
            #[trigger] chain[j],
        )
}

/// A chain leads from one base station to the other.
pub open spec fn linked(samples: Seq<Seq<(u8, Pose)>>, a: u8, b: u8) -> bool {
    exists|chain: Seq<u8>| #[trigger]
        is_chain(samples, chain) && chain[0] == a && chain.last() == b
}

/// Chains lead from a base station to all others.
pub open spec fn all_linked(samples: Seq<Seq<(u8, Pose)>>, from: u8) -> bool {
    forall|id: u8| #[trigger] occurs(samples, id) ==> linked(samples, from, id)
}

proof fn lemma_linked_on(samples: Seq<Seq<(u8, Pose)>>, a: u8, b: u8, c: u8)
    requires
        linked(samples, a, b),
        together(samples, b, c),
    ensures
        linked(samples, a, c),
{
    let chain = choose|chain: Seq<u8>| #[trigger]
        is_chain(samples, chain) && chain[0] == a && chain.last() == b;
    let longer = chain.push(c);
    assert forall|i: int, j: int| 0 <= i && j == i + 1 && j < longer.len() implies together(
        samples,
        #[trigger] longer[i],
        #[trigger] longer[j],
    ) by {
        if j < chain.len() {
            assert(together(samples, chain[i], chain[j]));
        }
    }
    assert(is_chain(samples, longer));
}

/// The base station that the others are found from: the first one of the first sample that has
/// any.
pub open spec fn reference_of(samples: Seq<Seq<(u8, Pose)>>) -> Option<(u8, Pose)>
    decreases samples.len(),
{
    if samples.len() == 0 {
        None
    } else if samples[0].len() > 0 {
        Some(samples[0][0])
    } else {
        reference_of(samples.skip(1))
    }
}

/// The first base station of a sample whose pose is known.
pub open spec fn first_known(sample: Seq<(u8, Pose)>, known: Seq<(u8, Pose)>) -> Option<u8>
    decreases sample.len(),
{
    if sample.len() == 0 {
        None
    } else if station_map::holds(known, sample[0].0) {
        Some(sample[0].0)
    } else {
        first_known(sample.skip(1), known)
    }
}

proof fn lemma_first_known(sample: Seq<(u8, Pose)>, known: Seq<(u8, Pose)>)
    ensures
        first_known(sample, known) matches Some(id) ==> station_map::holds(known, id)
            && station_map::holds(sample, id),
        forall|id: u8| #[trigger]
            station_map::holds(sample, id) && station_map::holds(known, id) ==> first_known(
                sample,
                known,
            ) is Some,
    decreases sample.len(),
{
    if sample.len() > 0 {
        let rest = sample.skip(1);
        lemma_first_known(rest, known);
        if station_map::holds(known, sample[0].0) {
            assert(station_map::holds(sample, sample[0].0));
        } else {
            if let Some(id) = first_known(rest, known) {
                let k = choose|k: int| 0 <= k < rest.len() && (#[trigger] rest[k]).0 == id;
                assert(sample[k + 1].0 == id);
            }
            assert forall|id: u8| #[trigger]
                station_map::holds(sample, id) && station_map::holds(known, id) implies first_known(
                sample,
                known,
            ) is Some by {
                let k = choose|k: int| 0 <= k < sample.len() && (#[trigger] sample[k]).0 == id;
                assert(rest[k - 1].0 == id);
                assert(station_map::holds(rest, id));
            }
        }
    }
}

/// The samples that give the pose of a base station: those that see it and one of known pose.
pub open spec fn sources(
    samples: Seq<Seq<(u8, Pose)>>,
    known: Seq<(u8, Pose)>,
    id: u8,
) -> Seq<int> {
    lists::positions_where(
        samples.len(),
        |s: int| station_map::holds(samples[s], id) && first_known(samples[s], known) is Some,
    )
}

/// The base stations to find that some sample gives the pose of.
pub open spec fn linkable(
    samples: Seq<Seq<(u8, Pose)>>,
    known: Seq<(u8, Pose)>,
    to_find: Seq<u8>,
) -> Seq<u8>
    decreases to_find.len(),
{
    if to_find.len() == 0 {
        Seq::empty()
    } else {
        let rest = linkable(samples, known, to_find.drop_last());
        if sources(samples, known, to_find.last()).len() > 0 {
            rest.push(to_find.last())
        } else {
            rest
        }
    }
}

proof fn lemma_linkable(samples: Seq<Seq<(u8, Pose)>>, known: Seq<(u8, Pose)>, to_find: Seq<u8>)
    ensures
        forall|id: u8| #[trigger]
            linkable(samples, known, to_find).contains(id) <==> to_find.contains(id) && sources(
                samples,
                known,
                id,
            ).len() > 0,
        linkable(samples, known, to_find).len() <= to_find.len(),
    decreases to_find.len(),
{
    let all = linkable(samples, known, to_find);
    if to_find.len() > 0 {
        let rest = to_find.drop_last();
        let before = linkable(samples, known, rest);
        lemma_linkable(samples, known, rest);
        assert forall|id: u8| #[trigger] all.contains(id) <==> to_find.contains(id) && sources(
            samples,
            known,
            id,
        ).len() > 0 by {
            if all.contains(id) {
                let k = choose|k: int| 0 <= k < all.len() && all[k] == id;
                if k < before.len() {
                    assert(before[k] == id);
                    assert(before.contains(id));
                    let m = choose|m: int| 0 <= m < rest.len() && rest[m] == id;
                    assert(to_find[m] == id);
                } else {
                    assert(to_find[to_find.len() - 1] == id);
                }
            }
            if to_find.contains(id) && sources(samples, known, id).len() > 0 {
                let m = choose|m: int| 0 <= m < to_find.len() && to_find[m] == id;
                if m < rest.len() {
                    assert(rest[m] == id);
                    assert(rest.contains(id));
                    assert(before.contains(id));
                    let k = choose|k: int| 0 <= k < before.len() && before[k] == id;
                    assert(all[k] == id);
                } else {
                    assert(all[all.len() - 1] == id);
                }
            }
        }
    }
}

proof fn lemma_source(
    samples: Seq<Seq<(u8, Pose)>>,
    known: Seq<(u8, Pose)>,
    id: u8,
)
    ensures
        sources(samples, known, id).len() > 0 <==> exists|k: u8|
            station_map::holds(known, k) && #[trigger] together(samples, k, id),
{
    let keep = |s: int|
        station_map::holds(samples[s], id) && first_known(samples[s], known) is Some;
    lists::lemma_positions_where(samples.len(), keep);
    let found = sources(samples, known, id);
    if found.len() > 0 {
        let s = found[0];
        assert(keep(s));
        lemma_first_known(samples[s], known);
        let k = first_known(samples[s], known)->0;
        assert(together(samples, k, id));
    }
    if exists|k: u8| station_map::holds(known, k) && #[trigger] together(samples, k, id) {
        let k = choose|k: u8|
            station_map::holds(known, k) && #[trigger] together(samples, k, id);
        let s = choose|s: int|
            0 <= s < samples.len() && station_map::holds(#[trigger] samples[s], k)
                && station_map::holds(samples[s], id);
        lemma_first_known(samples[s], known);
        assert(keep(s));
        assert(found.contains(s));
    }
}

/// The known poses with those of more base stations.
pub open spec fn with_poses(known: Seq<(u8, Pose)>, ids: Seq<u8>, poses: Seq<Pose>) -> Seq<
    (u8, Pose),
>
    decreases ids.len(),
{
    if ids.len() == 0 {
        known
    } else {
        station_map::inserted(
            with_poses(known, ids.drop_last(), poses),
            ids.last(),
            poses[ids.len() - 1],
        )
    }
}

proof fn lemma_with_poses(known: Seq<(u8, Pose)>, ids: Seq<u8>, poses: Seq<Pose>)
    requires
        station_map::ascending(known),
    ensures
        station_map::ascending(with_poses(known, ids, poses)),
        forall|id: u8| #[trigger]
            station_map::holds(with_poses(known, ids, poses), id) <==> station_map::holds(known, id)
                || ids.contains(id),
    decreases ids.len(),
{
    if ids.len() > 0 {
        let rest = ids.drop_last();
        let before = with_poses(known, rest, poses);
        let after = with_poses(known, ids, poses);
        lemma_with_poses(known, rest, poses);
        station_map::law_inserted(before, ids.last(), poses[ids.len() - 1]);
        assert forall|id: u8| #[trigger] station_map::holds(after, id) <==> station_map::holds(
            known,
            id,
        ) || ids.contains(id) by {
            if id == ids.last() {
                assert(ids[ids.len() - 1] == id);
                assert(station_map::value_of(after, id) is Some);
            } else {
                assert(station_map::value_of(after, id) == station_map::value_of(before, id));
                assert(station_map::holds(before, id) <==> station_map::holds(known, id)
                    || rest.contains(id));
                if ids.contains(id) {
                    let k = choose|k: int| 0 <= k < ids.len() && ids[k] == id;
                    assert(rest[k] == id);
                }
                if rest.contains(id) {
                    let k = choose|k: int| 0 <= k < rest.len() && rest[k] == id;
                    assert(ids[k] == id);
                }
            }
        }
    }
}

/// The base stations of a list whose poses are not known.
pub open spec fn not_known(to_find: Seq<u8>, known: Seq<(u8, Pose)>) -> Seq<u8>
    decreases to_find.len(),
{
    if to_find.len() == 0 {
        Seq::empty()
    } else if station_map::holds(known, to_find.last()) {
        not_known(to_find.drop_last(), known)
    } else {
        not_known(to_find.drop_last(), known).push(to_find.last())
    }
}

/// The numbers ascend strictly.
pub open spec fn rising(ids: Seq<u8>) -> bool {
    forall|i: int, j: int| 0 <= i < j < ids.len() ==> #[trigger] ids[i] < #[trigger] ids[j]
}

proof fn lemma_not_known(to_find: Seq<u8>, known: Seq<(u8, Pose)>)
    requires
        rising(to_find),
    ensures
        rising(not_known(to_find, known)),
        forall|id: u8| #[trigger]
            not_known(to_find, known).contains(id) <==> to_find.contains(id)
                && !station_map::holds(known, id),
        not_known(to_find, known).len() <= to_find.len(),
        (exists|id: u8| #[trigger] to_find.contains(id) && station_map::holds(known, id))
            ==> not_known(to_find, known).len() < to_find.len(),
    decreases to_find.len(),
{
    let all = not_known(to_find, known);
    if to_find.len() > 0 {
        let rest = to_find.drop_last();
        let before = not_known(rest, known);
        assert(rising(rest)) by {
            assert forall|i: int, j: int| 0 <= i < j < rest.len() implies #[trigger] rest[i]
                < #[trigger] rest[j] by {
                assert(to_find[i] < to_find[j]);
            }
        }
        lemma_not_known(rest, known);
        assert forall|i: int, j: int| 0 <= i < j < all.len() implies #[trigger] all[i]
            < #[trigger] all[j] by {
            if j < before.len() {
                assert(before[i] < before[j]);
            } else {
                assert(before[i] == all[i]);
                assert(before.contains(before[i]));
                let m = choose|m: int| 0 <= m < rest.len() && rest[m] == before[i];
                assert(to_find[m] < to_find[to_find.len() - 1]);
            }
        }
        assert forall|id: u8| #[trigger] all.contains(id) <==> to_find.contains(id)
            && !station_map::holds(known, id) by {
            if all.contains(id) {
                let k = choose|k: int| 0 <= k < all.len() && all[k] == id;
                if k < before.len() {
                    assert(before[k] == id);
                    assert(before.contains(id));
                    let m = choose|m: int| 0 <= m < rest.len() && rest[m] == id;
                    assert(to_find[m] == id);
                } else {
                    assert(to_find[to_find.len() - 1] == id);
                }
            }
            if to_find.contains(id) && !station_map::holds(known, id) {
                let m = choose|m: int| 0 <= m < to_find.len() && to_find[m] == id;
                if m < rest.len() {
                    assert(rest[m] == id);
                    assert(rest.contains(id));
                    assert(before.contains(id));
                    let k = choose|k: int| 0 <= k < before.len() && before[k] == id;
                    assert(all[k] == id);
                } else {
                    assert(all[all.len() - 1] == id);
                }
            }
        }
        if exists|id: u8| #[trigger] to_find.contains(id) && station_map::holds(known, id) {
            let id = choose|id: u8| #[trigger]
                to_find.contains(id) && station_map::holds(known, id);
            let m = choose|m: int| 0 <= m < to_find.len() && to_find[m] == id;
            if m < rest.len() {
                assert(rest[m] == id);
                assert(rest.contains(id));
            }
        }
    }
}

/// A base station to find, the samples that give its pose, and for each the base station of
/// known pose that it is given from.
pub struct LinkSource {
    pub station: u8,
    pub samples: Vec<usize>,
    pub through: Vec<u8>,
}

/// What is to be done next.
pub enum LinkRound {
    /// All poses are known.
    Finished,
    /// Base stations are left that no sample links to a known one; with the reason to report.
    Stuck(String),
    /// These base stations get the average of the poses that their samples give.
    Link(Vec<LinkSource>),
}

/// The search for the poses of all base stations.
pub struct LinkSearch {
    pub reference: u8,
    pub known: StationMap<Pose>,
    pub to_find: Vec<u8>,
}

impl LinkSearch {
    /// The search fits to the samples: the base stations of known pose are linked to the
    /// reference, and those to find are all others.
    pub open spec fn fits(&self, samples: Seq<Seq<(u8, Pose)>>) -> bool {
        &&& occurs(samples, self.reference)
        &&& station_map::ascending(self.known@)
        &&& station_map::holds(self.known@, self.reference)
        &&& forall|id: u8| #[trigger]
            station_map::holds(self.known@, id) ==> occurs(samples, id) && linked(
                samples,
                self.reference,
                id,
            )
        &&& rising(self.to_find@)
        &&& forall|id: u8| #[trigger]
            self.to_find@.contains(id) <==> occurs(samples, id) && !station_map::holds(
                self.known@,
                id,
            )
    }
}

/// When nothing is left to find, chains lead from the reference to all base stations. When no
/// sample gives the pose of one that is left, none leads to it.
pub proof fn law_linked_or_stuck(search: LinkSearch, samples: Seq<Seq<(u8, Pose)>>)
    requires
        search.fits(samples),
    ensures
        search.to_find@.len() == 0 ==> all_linked(samples, search.reference),
        search.to_find@.len() > 0 && linkable(samples, search.known@, search.to_find@).len() == 0
            ==> !all_linked(samples, search.reference),
{
    if search.to_find@.len() == 0 {
        assert forall|id: u8| #[trigger] occurs(samples, id) implies linked(
            samples,
            search.reference,
            id,
        ) by {
            assert(!search.to_find@.contains(id));
            assert(station_map::holds(search.known@, id));
        }
    } else if linkable(samples, search.known@, search.to_find@).len() == 0 {
        let id = search.to_find@[0];
        assert(search.to_find@.contains(id));
        lemma_linkable(samples, search.known@, search.to_find@);
        if linked(samples, search.reference, id) {
            let chain = choose|chain: Seq<u8>| #[trigger]
                is_chain(samples, chain) && chain[0] == search.reference && chain.last() == id;
            lemma_chain_known(search, samples, chain, (chain.len() - 1) as nat);
        }
    }
}

proof fn lemma_chain_known(
    search: LinkSearch,
    samples: Seq<Seq<(u8, Pose)>>,
    chain: Seq<u8>,
    n: nat,
)
    requires
        search.fits(samples),
        linkable(samples, search.known@, search.to_find@).len() == 0,
        is_chain(samples, chain),
        chain[0] == search.reference,
        n < chain.len(),
    ensures
        station_map::holds(search.known@, chain[n as int]),
    decreases n,
{
    if n > 0 {
        lemma_chain_known(search, samples, chain, (n - 1) as nat);
        let k = chain[n - 1];
        let id = chain[n as int];
        assert(together(samples, k, id));
        let s = choose|s: int|
            0 <= s < samples.len() && station_map::holds(#[trigger] samples[s], k)
                && station_map::holds(samples[s], id);
        assert(occurs(samples, id));
        if !station_map::holds(search.known@, id) {
            assert(search.to_find@.contains(id));
            lemma_source(samples, search.known@, id);
            lemma_linkable(samples, search.known@, search.to_find@);
            assert(linkable(samples, search.known@, search.to_find@).contains(id));
        }
    }
}

fn known_in(sample: &StationMap<Pose>, known: &StationMap<Pose>) -> (id: Option<u8>)
    ensures
        id == first_known(sample@, known@),
{
    let mut i: usize = 0;
    assert(sample@.skip(0) =~= sample@);
    while i < sample.len()
        invariant
            i <= sample@.len(),
            first_known(sample@, known@) == first_known(sample@.skip(i as int), known@),
        decreases sample@.len() - i,
    {
        let id: u8 = sample.entry(i).0;
        assert(sample@.skip(i as int)[0] == sample@[i as int]);
        assert(sample@.skip(i as int).skip(1) =~= sample@.skip(i + 1));
        if known.contains(id) {
            return Some(id);
        }
        i = i + 1;
    }
    None
}

/// What gives the pose of a base station.
pub open spec fn is_source(
    source: LinkSource,
    samples: Seq<Seq<(u8, Pose)>>,
    known: Seq<(u8, Pose)>,
    id: u8,
) -> bool {
    &&& source.station == id
    &&& lists::ints(source.samples@) == sources(samples, known, id)
    &&& source.through@.len() == source.samples@.len()
    &&& forall|k: int|
        0 <= k < source.through@.len() ==> Some(#[trigger] source.through@[k]) == first_known(
            samples[source.samples@[k] as int],
            known,
        )
}

fn source_of(samples: &Vec<StationMap<Pose>>, known: &StationMap<Pose>, id: u8) -> (source:
    LinkSource)
    ensures
        is_source(source, initial_estimator::pose_lists(samples@), known@, id),
{
    let ghost views = initial_estimator::pose_lists(samples@);
    let ghost keep = |s: int|
        station_map::holds(views[s], id) && first_known(views[s], known@) is Some;
    let mut found: Vec<usize> = Vec::new();
    let mut through: Vec<u8> = Vec::new();
    let mut s: usize = 0;
    assert(lists::ints(found@) =~= lists::positions_where(0, keep));
    while s < samples.len()
        invariant
            s <= samples@.len(),
            views == initial_estimator::pose_lists(samples@),
            keep == (|s: int|
                station_map::holds(views[s], id) && first_known(views[s], known@) is Some),
            lists::ints(found@) == lists::positions_where(s as nat, keep),
            found@.len() == through@.len(),
            forall|k: int|
                0 <= k < found@.len() ==> (#[trigger] found@[k]) < samples@.len() && Some(
                    through@[k],
                ) == first_known(views[found@[k] as int], known@),
        decreases samples.len() - s,
    {
        let ghost before = found@;
        assert(views[s as int] == samples@[s as int]@);
        if samples[s].contains(id) {
            if let Some(k) = known_in(&samples[s], known) {
                found.push(s);
                through.push(k);
                assert(lists::ints(found@) =~= lists::ints(before).push(s as int));
            }
        }
        s = s + 1;
    }
    let source = LinkSource { station: id, samples: found, through };
    assert forall|k: int| 0 <= k < source.through@.len() implies Some(
        #[trigger] source.through@[k],
    ) == first_known(views[source.samples@[k] as int], known@) by {
        assert(found@[k] < samples@.len());
    }
    source
}

fn stations_in(samples: &Vec<StationMap<Pose>>) -> (ids: Vec<u8>)
    ensures
        rising(ids@),
        forall|id: u8| #[trigger]
            ids@.contains(id) <==> occurs(initial_estimator::pose_lists(samples@), id),
{
    let ghost views = initial_estimator::pose_lists(samples@);
    let mut all: StationMap<bool> = StationMap::new();
    let mut i: usize = 0;
    while i < samples.len()
        invariant
            i <= samples@.len(),
            views == initial_estimator::pose_lists(samples@),
            station_map::ascending(all@),
            forall|id: u8| #[trigger]
                station_map::holds(all@, id) <==> exists|k: int|
                    0 <= k < i && station_map::holds(#[trigger] views[k], id),
        decreases samples.len() - i,
    {
        let ghost before = all@;
        let ghost sample = samples@[i as int]@;
        assert(views[i as int] == sample);
        let mut j: usize = 0;
        while j < samples[i].len()
            invariant
                j <= sample.len(),
                i < samples@.len(),
                sample == samples@[i as int]@,
                station_map::ascending(all@),
                forall|id: u8| #[trigger]
                    station_map::holds(all@, id) <==> station_map::holds(before, id) || (exists|
                        k: int,
                    |
                        0 <= k < j && (#[trigger] sample[k]).0 == id),
            decreases sample.len() - j,
        {
            let ghost at = all@;
            let id: u8 = samples[i].entry(j).0;
            all.insert(id, true);
            proof {
                station_map::law_inserted(at, id, true);
                assert forall|x: u8| #[trigger] station_map::holds(all@, x) <==> (
                station_map::holds(before, x) || (exists|k: int|
                    0 <= k < j + 1 && (#[trigger] sample[k]).0 == x)) by {
                    assert(station_map::holds(at, x) <==> station_map::holds(before, x) || (
                    exists|k: int| 0 <= k < j && (#[trigger] sample[k]).0 == x));
                    if x != id {
                        assert(station_map::value_of(all@, x) == station_map::value_of(at, x));
                    } else {
                        assert(station_map::value_of(all@, x) is Some);
                        assert(sample[j as int].0 == x);
                    }
                }
            }
            j = j + 1;
        }
        proof {
            assert forall|id: u8| #[trigger] station_map::holds(all@, id) <==> exists|k: int|
                0 <= k < i + 1 && station_map::holds(#[trigger] views[k], id) by {
                assert(station_map::holds(before, id) <==> exists|k: int|
                    0 <= k < i && station_map::holds(#[trigger] views[k], id));
                if exists|k: int| 0 <= k < sample.len() && (#[trigger] sample[k]).0 == id {
                    assert(station_map::holds(views[i as int], id));
                }
            }
        }
        i = i + 1;
    }
    let ids = all.ids();
    proof {
        assert forall|id: u8| #[trigger] ids@.contains(id) <==> occurs(views, id) by {
            assert(station_map::holds(all@, id) <==> occurs(views, id));
            if ids@.contains(id) {
                let k = choose|k: int| 0 <= k < ids@.len() && ids@[k] == id;
                assert(all@[k].0 == id);
            }
            if station_map::holds(all@, id) {
                let k = choose|k: int| 0 <= k < all@.len() && (#[trigger] all@[k]).0 == id;
                assert(ids@[k] == id);
            }
        }
        assert forall|i: int, j: int| 0 <= i < j < ids@.len() implies #[trigger] ids@[i]
            < #[trigger] ids@[j] by {
            assert(all@[i].0 < all@[j].0);
        }
    }
    ids
}

fn drop_known(to_find: &Vec<u8>, known: &StationMap<Pose>) -> (left: Vec<u8>)
    ensures
        left@ == not_known(to_find@, known@),
{
    let mut left: Vec<u8> = Vec::new();
    let mut i: usize = 0;
    assert(to_find@.take(0) =~= Seq::empty());
    while i < to_find.len()
        invariant
            i <= to_find@.len(),
            left@ == not_known(to_find@.take(i as int), known@),
        decreases to_find.len() - i,
    {
        assert(to_find@.take(i + 1).drop_last() =~= to_find@.take(i as int));
        if !known.contains(to_find[i]) {
            left.push(to_find[i]);
        }
        i = i + 1;
    }
    assert(to_find@.take(to_find@.len() as int) =~= to_find@);
    left
}

impl LighthouseInitialEstimator {
    /// Starts the search for the poses of all base stations from the poses found in each sample.
    /// It starts from the first base station of the first sample that has any.
    pub fn estimate_bs_poses(samples: &Vec<StationMap<Pose>>) -> (r: Result<LinkSearch, String>)
        ensures
            match r {
                Ok(search) => {
                    &&& reference_of(initial_estimator::pose_lists(samples@)) == Some(
                        search.known@[0],
                    )
                    &&& search.known@.len() == 1
                    &&& search.reference == search.known@[0].0
                    &&& search.fits(initial_estimator::pose_lists(samples@))
                },
                Err(reason) => {
                    &&& reference_of(initial_estimator::pose_lists(samples@)) is None
                    &&& reason@ == "Too little data, no reference"@
                },
            },
    {
        let ghost views = initial_estimator::pose_lists(samples@);
        let mut i: usize = 0;
        assert(views.skip(0) =~= views);
        while i < samples.len()
            invariant
                i <= samples@.len(),
                views == initial_estimator::pose_lists(samples@),
                reference_of(views) == reference_of(views.skip(i as int)),
            decreases samples.len() - i,
        {
            assert(views.skip(i as int)[0] == samples@[i as int]@);
            assert(views.skip(i as int).skip(1) =~= views.skip(i + 1));
            if samples[i].len() > 0 {
                let (id, pose) = *samples[i].entry(0);
                let mut known: StationMap<Pose> = StationMap::new();
                known.insert(id, pose);
                let all = stations_in(samples);
                let to_find = drop_known(&all, &known);
                proof {
                    assert(known@ =~= seq![(id, pose)]);
                    assert(views[i as int][0].0 == id);
                    assert(station_map::holds(views[i as int], id));
                    assert(occurs(views, id));
                    assert(known@[0].0 == id);
                    assert(station_map::holds(known@, id));
                    assert(linked(views, id, id)) by {
                        let chain = seq![id];
                        assert(is_chain(views, chain));
                        assert(chain.last() == id);
                    }
                    lemma_not_known(all@, known@);
                    assert forall|x: u8| #[trigger] to_find@.contains(x) <==> occurs(views, x)
                        && !station_map::holds(known@, x) by {
                        assert(all@.contains(x) <==> occurs(views, x));
                    }
                }
                return Ok(LinkSearch { reference: id, known, to_find });
            }
            i = i + 1;
        }
        Err("Too little data, no reference".to_string())
    }

    /// The base stations of each sample that give the pose of the Crazyflie: those whose pose
    /// is known.
    pub fn estimate_cf_poses(
        samples: &Vec<StationMap<Pose>>,
        bs_poses: &StationMap<Pose>,
    ) -> (used: Vec<Vec<u8>>)
        ensures
            used@.len() == samples@.len(),
            forall|s: int|
                0 <= s < used@.len() ==> (#[trigger] used@[s])@ == stations_known(
                    station_map::ids_of(samples@[s]@),
                    bs_poses@,
                ),
    {
        let mut used: Vec<Vec<u8>> = Vec::new();
        let mut s: usize = 0;
        while s < samples.len()
            invariant
                s <= samples@.len(),
                used@.len() == s,
                forall|k: int|
                    0 <= k < s ==> (#[trigger] used@[k])@ == stations_known(
                        station_map::ids_of(samples@[k]@),
                        bs_poses@,
                    ),
            decreases samples.len() - s,
        {
            let ids = samples[s].ids();
            used.push(known_stations(&ids, bs_poses));
            s = s + 1;
        }
        used
    }
}

/// The base stations of a list whose poses are known.
pub open spec fn stations_known(ids: Seq<u8>, known: Seq<(u8, Pose)>) -> Seq<u8>
    decreases ids.len(),
{
    if ids.len() == 0 {
        Seq::empty()
    } else if station_map::holds(known, ids.last()) {
        stations_known(ids.drop_last(), known).push(ids.last())
    } else {
        stations_known(ids.drop_last(), known)
    }
}

/// The base stations of a list whose poses are known.
pub fn known_stations(ids: &Vec<u8>, known: &StationMap<Pose>) -> (r: Vec<u8>)
    ensures
        r@ == stations_known(ids@, known@),
{
    let mut r: Vec<u8> = Vec::new();
    let mut i: usize = 0;
    assert(ids@.take(0) =~= Seq::empty());
    while i < ids.len()
        invariant
            i <= ids@.len(),
            r@ == stations_known(ids@.take(i as int), known@),
        decreases ids.len() - i,
    {
        assert(ids@.take(i + 1).drop_last() =~= ids@.take(i as int));
        if known.contains(ids[i]) {
            r.push(ids[i]);
        }
        i = i + 1;
    }
    assert(ids@.take(ids@.len() as int) =~= ids@);
    r
}

impl LinkSearch {
    /// What is to be done next.
    pub fn pending(&self, samples: &Vec<StationMap<Pose>>) -> (round: LinkRound)
        requires
            self.fits(initial_estimator::pose_lists(samples@)),
        ensures
            ({
                let views = initial_estimator::pose_lists(samples@);
                let next = linkable(views, self.known@, self.to_find@);
                match round {
                    LinkRound::Finished => self.to_find@.len() == 0 && all_linked(
                        views,
                        self.reference,
                    ),
                    LinkRound::Stuck(reason) => {
                        &&& self.to_find@.len() > 0
                        &&& next.len() == 0
                        &&& !all_linked(views, self.reference)
                        &&& reason@ == "Can not link positions between all base stations"@
                    },
                    LinkRound::Link(sources) => {
                        &&& next.len() > 0
                        &&& sources@.len() == next.len()
                        &&& forall|i: int|
                            0 <= i < sources@.len() ==> is_source(
                                #[trigger] sources@[i],
                                views,
                                self.known@,
                                next[i],
                            )
                    },
                }
            }),
    {
        let ghost views = initial_estimator::pose_lists(samples@);
        proof {
            law_linked_or_stuck(*self, views);
        }
        if self.to_find.len() == 0 {
            return LinkRound::Finished;
        }
        let mut found: Vec<LinkSource> = Vec::new();
        let mut i: usize = 0;
        assert(self.to_find@.take(0) =~= Seq::empty());
        while i < self.to_find.len()
            invariant
                i <= self.to_find@.len(),
                views == initial_estimator::pose_lists(samples@),
                found@.len() == linkable(views, self.known@, self.to_find@.take(i as int)).len(),
                forall|k: int|
                    0 <= k < found@.len() ==> is_source(
                        #[trigger] found@[k],
                        views,
                        self.known@,
                        linkable(views, self.known@, self.to_find@.take(i as int))[k],
                    ),
            decreases self.to_find.len() - i,
        {
            assert(self.to_find@.take(i + 1).drop_last() =~= self.to_find@.take(i as int));
            let source = source_of(samples, &self.known, self.to_find[i]);
            assert(lists::ints(source.samples@).len() == source.samples@.len());
            if source.samples.len() > 0 {
                found.push(source);
            }
            i = i + 1;
        }
        assert(self.to_find@.take(self.to_find@.len() as int) =~= self.to_find@);
        if found.len() == 0 {
            LinkRound::Stuck("Can not link positions between all base stations".to_string())
        } else {
            LinkRound::Link(found)
        }
    }

    /// Takes over the poses of the base stations of the last round. Fewer are left to find.
    pub fn link(&mut self, samples: &Vec<StationMap<Pose>>, poses: &Vec<Pose>)
        requires
            old(self).fits(initial_estimator::pose_lists(samples@)),
            poses@.len() == linkable(
                initial_estimator::pose_lists(samples@),
                old(self).known@,
                old(self).to_find@,
            ).len(),
            poses@.len() > 0,
        ensures
            final(self).fits(initial_estimator::pose_lists(samples@)),
            final(self).reference == old(self).reference,
            final(self).known@ == with_poses(
                old(self).known@,
                linkable(
                    initial_estimator::pose_lists(samples@),
                    old(self).known@,
                    old(self).to_find@,
                ),
                poses@,
            ),
            final(self).to_find@ == not_known(old(self).to_find@, final(self).known@),
            final(self).to_find@.len() < old(self).to_find@.len(),
    {
        let ghost views = initial_estimator::pose_lists(samples@);
        let ghost known_before = self.known@;
        let ghost find_before = self.to_find@;
        let ghost next = linkable(views, known_before, find_before);
        let mut ids: Vec<u8> = Vec::new();
        let mut i: usize = 0;
        assert(find_before.take(0) =~= Seq::empty());
        while i < self.to_find.len()
            invariant
                i <= self.to_find@.len(),
                self.to_find@ == find_before,
                self.known@ == known_before,
                self.reference == old(self).reference,
                views == initial_estimator::pose_lists(samples@),
                ids@ == linkable(views, known_before, find_before.take(i as int)),
            decreases self.to_find.len() - i,
        {
            assert(find_before.take(i + 1).drop_last() =~= find_before.take(i as int));
            let source = source_of(samples, &self.known, self.to_find[i]);
            assert(lists::ints(source.samples@).len() == source.samples@.len());
            if source.samples.len() > 0 {
                ids.push(self.to_find[i]);
            }
            i = i + 1;
        }
        assert(find_before.take(find_before.len() as int) =~= find_before);
        let mut j: usize = 0;
        assert(ids@.take(0) =~= Seq::empty());
        while j < ids.len()
            invariant
                j <= ids@.len(),
                ids@.len() == poses@.len(),
                self.to_find@ == find_before,
                self.reference == old(self).reference,
                self.known@ == with_poses(known_before, ids@.take(j as int), poses@),
            decreases ids.len() - j,
        {
            assert(ids@.take(j + 1).drop_last() =~= ids@.take(j as int));
            self.known.insert(ids[j], poses[j]);
            j = j + 1;
        }
        assert(ids@.take(ids@.len() as int) =~= ids@);
        let left = drop_known(&self.to_find, &self.known);
        self.to_find = left;
        proof {
            lemma_linkable(views, known_before, find_before);
            lemma_with_poses(known_before, next, poses@);
            lemma_not_known(find_before, self.known@);
            assert(next.contains(next[0]));
            assert(find_before.contains(next[0]) && station_map::holds(self.known@, next[0]));
            assert forall|id: u8| #[trigger] station_map::holds(self.known@, id) implies occurs(
                views,
                id,
            ) && linked(views, self.reference, id) by {
                if !station_map::holds(known_before, id) {
                    assert(next.contains(id));
                    lemma_source(views, known_before, id);
                    let k = choose|k: u8|
                        station_map::holds(known_before, k) && #[trigger] together(views, k, id);
                    lemma_linked_on(views, self.reference, k, id);
                }
            }
        }
    }
}

/// The others are found from the first base station of the first sample that sees any; there is
/// none if no sample does.
pub proof fn law_reference(samples: Seq<Seq<(u8, Pose)>>, i: int)
    ensures
        0 <= i < samples.len() && samples[i].len() > 0 && (forall|k: int|
            0 <= k < i ==> (#[trigger] samples[k]).len() == 0) ==> reference_of(samples) == Some(
            samples[i][0],
        ),
        (forall|k: int| 0 <= k < samples.len() ==> (#[trigger] samples[k]).len() == 0)
            ==> reference_of(samples) is None,
    decreases samples.len(),
{
    if samples.len() > 0 {
        let rest = samples.skip(1);
        law_reference(rest, i - 1);
        if 0 < i < samples.len() && samples[i].len() > 0 && (forall|k: int|
            0 <= k < i ==> (#[trigger] samples[k]).len() == 0) {
            assert(samples[0].len() == 0);
            assert(rest[i - 1] == samples[i]);
            assert forall|k: int| 0 <= k < i - 1 implies (#[trigger] rest[k]).len() == 0 by {
                assert(rest[k] == samples[k + 1]);
            }
        }
        if forall|k: int| 0 <= k < samples.len() ==> (#[trigger] samples[k]).len() == 0 {
            assert(samples[0].len() == 0);
            assert forall|k: int| 0 <= k < rest.len() implies (#[trigger] rest[k]).len() == 0 by {
                assert(rest[k] == samples[k + 1]);
            }
        }
    }
}

/// A pose is given from the first base station of the sample that is known, and from none if none
/// is.
pub proof fn law_first_known(sample: Seq<(u8, Pose)>, known: Seq<(u8, Pose)>, i: int)
    ensures
        0 <= i < sample.len() && station_map::holds(known, sample[i].0) && (forall|k: int|
            0 <= k < i ==> !station_map::holds(known, (#[trigger] sample[k]).0)) ==> first_known(
            sample,
            known,
        ) == Some(sample[i].0),
        (forall|k: int|
            0 <= k < sample.len() ==> !station_map::holds(known, (#[trigger] sample[k]).0))
            ==> first_known(sample, known) is None,
    decreases sample.len(),
{
    if sample.len() > 0 {
        let rest = sample.skip(1);
        law_first_known(rest, known, i - 1);
        if 0 < i < sample.len() && station_map::holds(known, sample[i].0) && (forall|k: int|
            0 <= k < i ==> !station_map::holds(known, (#[trigger] sample[k]).0)) {
            assert(!station_map::holds(known, sample[0].0));
            assert(rest[i - 1] == sample[i]);
            assert forall|k: int| 0 <= k < i - 1 implies !station_map::holds(
                known,
                (#[trigger] rest[k]).0,
            ) by {
                assert(rest[k] == sample[k + 1]);
            }
        }
        if forall|k: int|
            0 <= k < sample.len() ==> !station_map::holds(known, (#[trigger] sample[k]).0) {
            assert(!station_map::holds(known, sample[0].0));
            assert forall|k: int| 0 <= k < rest.len() implies !station_map::holds(
                known,
                (#[trigger] rest[k]).0,
            ) by {
                assert(rest[k] == sample[k + 1]);
            }
        }
    }
}

/// A sample gives the pose of a base station if and only if it sees that one and some one of known
/// pose.
pub proof fn law_sources(
    samples: Seq<Seq<(u8, Pose)>>,
    known: Seq<(u8, Pose)>,
    id: u8,
    s: int,
)
    ensures
        sources(samples, known, id).contains(s) <==> 0 <= s < samples.len() && station_map::holds(
            samples[s],
            id,
        ) && exists|k: u8| #[trigger]
            station_map::holds(samples[s], k) && station_map::holds(known, k),
{
    let keep = |s: int| station_map::holds(samples[s], id) && first_known(samples[s], known) is Some;
    lists::lemma_positions_where(samples.len(), keep);
    if sources(samples, known, id).contains(s) {
        let k = sources(samples, known, id).index_of(s);
        assert(keep(sources(samples, known, id)[k]));
        lemma_first_known(samples[s], known);
        assert(station_map::holds(samples[s], first_known(samples[s], known)->0));
    }
    if 0 <= s < samples.len() && station_map::holds(samples[s], id) && exists|k: u8| #[trigger]
        station_map::holds(samples[s], k) && station_map::holds(known, k) {
        lemma_first_known(samples[s], known);
        assert(keep(s));
    }
}

/// The base stations that get their poses next are those to find that some sample gives the pose
/// of, in the order of the list.
pub proof fn law_linkable(
    samples: Seq<Seq<(u8, Pose)>>,
    known: Seq<(u8, Pose)>,
    to_find: Seq<u8>,
    id: u8,
)
    requires
        rising(to_find),
    ensures
        linkable(samples, known, to_find).contains(id) <==> to_find.contains(id) && exists|s: int|
            #[trigger] sources(samples, known, id).contains(s),
        rising(linkable(samples, known, to_find)),
    decreases to_find.len(),
{
    lemma_linkable(samples, known, to_find);
    if sources(samples, known, id).len() > 0 {
        assert(sources(samples, known, id).contains(sources(samples, known, id)[0]));
    }
    if to_find.len() > 0 {
        let rest = to_find.drop_last();
        law_linkable(samples, known, rest, id);
        lemma_linkable(samples, known, rest);
        let before = linkable(samples, known, rest);
        let all = linkable(samples, known, to_find);
        assert forall|i: int, j: int| 0 <= i < j < all.len() implies #[trigger] all[i]
            < #[trigger] all[j] by {
            if j == before.len() {
                assert(before.contains(before[i]));
                assert(rest.contains(before[i]));
                let k = rest.index_of(before[i]);
                assert(to_find[k] < to_find[to_find.len() - 1]);
            }
        }
    }
}

/// Each of the base stations gets the pose of its own place in the list; the poses of the others
/// stay.
pub proof fn law_poses_taken_over(known: Seq<(u8, Pose)>, ids: Seq<u8>, poses: Seq<Pose>, i: int, id: u8)
    requires
        station_map::ascending(known),
        rising(ids),
    ensures
        0 <= i < ids.len() ==> station_map::value_of(with_poses(known, ids, poses), ids[i]) == Some(
            poses[i],
        ),
        !ids.contains(id) ==> station_map::value_of(with_poses(known, ids, poses), id)
            == station_map::value_of(known, id),
    decreases ids.len(),
{
    if ids.len() > 0 {
        let rest = ids.drop_last();
        let before = with_poses(known, rest, poses);
        lemma_with_poses(known, rest, poses);
        law_poses_taken_over(known, rest, poses, i, id);
        station_map::law_inserted(before, ids.last(), poses[ids.len() - 1]);
        if 0 <= i < ids.len() - 1 {
            assert(rest[i] == ids[i]);
            assert(ids[i] < ids[ids.len() - 1]);
        }
        if !ids.contains(id) {
            assert(ids[ids.len() - 1] != id);
            if rest.contains(id) {
                let k = rest.index_of(id);
                assert(ids[k] == id);
            }
        }
    }
}

/// A base station of a list is either known or not, and the parts keep the order of the list.
pub proof fn law_known_or_not(ids: Seq<u8>, known: Seq<(u8, Pose)>, id: u8)
    requires
        rising(ids),
    ensures
        not_known(ids, known).contains(id) <==> ids.contains(id) && !station_map::holds(known, id),
        stations_known(ids, known).contains(id) <==> ids.contains(id) && station_map::holds(
            known,
            id,
        ),
        rising(not_known(ids, known)),
        rising(stations_known(ids, known)),
        not_known(ids, known).len() + stations_known(ids, known).len() == ids.len(),
    decreases ids.len(),
{
    lemma_not_known(ids, known);
    if ids.len() > 0 {
        let rest = ids.drop_last();
        law_known_or_not(rest, known, id);
        let before = stations_known(rest, known);
        let all = stations_known(ids, known);
        if all.contains(id) {
            let k = all.index_of(id);
            if k < before.len() {
                assert(before[k] == id);
                let j = rest.index_of(id);
                assert(ids[j] == id);
            } else {
                assert(ids[ids.len() - 1] == id);
            }
        }
        if ids.contains(id) && station_map::holds(known, id) {
            let j = ids.index_of(id);
            if j < rest.len() {
                assert(rest[j] == id);
                let k = before.index_of(id);
                assert(all[k] == id);
            } else {
                assert(all[all.len() - 1] == id);
            }
        }
        assert forall|i: int, j: int| 0 <= i < j < all.len() implies #[trigger] all[i]
            < #[trigger] all[j] by {
            if j == before.len() {
                law_known_or_not(rest, known, before[i]);
                assert(before.contains(before[i]));
                let k = rest.index_of(before[i]);
                assert(ids[k] < ids[ids.len() - 1]);
            }
        }
    }
}

} // verus!
