//! The first estimate of the geometry: each base station has two possible poses in each sample,
//! and what several samples agree on tells which one it is.

use crate::float_bits;
use crate::lh_geo::sample;
use crate::lh_geo::sample::{
    BsPairPoses, LhCfPoseSampleStatus, LhCfPoseSampleWrapper, WrapperView,
};
use crate::lh_geo::solution;
use crate::lh_geo::solution::{LighthouseGeometrySolution, SolutionView};
use crate::lh_geo::station_map;
use crate::lh_geo::station_map::StationMap;
use crate::lh_geo::types;
use crate::lh_geo::types::Pose;
use crate::lists;
use crate::text;
use vstd::prelude::*;
use vstd::string::*;

verus! {

/// Two base stations.
#[derive(Debug, Clone, Copy, PartialEq, Eq, Structural)]
pub struct BsPairIds(pub u8, pub u8);

/// The first estimate of the geometry.
pub struct LighthouseInitialEstimator;

/// Two base stations and the samples in which both have possible poses.
pub struct PairSightings {
    pub pair: BsPairIds,
    pub samples: Vec<usize>,
}

/// The samples in which two base stations both have possible poses.
pub open spec fn sightings(samples: Seq<WrapperView>, a: u8, b: u8) -> Seq<int> {
    lists::positions_where(
        samples.len(),
        |i: int|
            station_map::holds(samples[i].sample.ippe, a) && station_map::holds(
                samples[i].sample.ippe,
                b,
            ),
    )
}

/// Some sample has possible poses for a base station.
pub open spec fn sighted(samples: Seq<WrapperView>, id: u8) -> bool {
    exists|i: int|
        0 <= i < samples.len() && station_map::holds((#[trigger] samples[i]).sample.ippe, id)
}

fn samples_with_both(samples: &Vec<LhCfPoseSampleWrapper>, a: u8, b: u8) -> (r: Vec<usize>)
    ensures
        lists::ints(r@) == sightings(sample::wrapper_views(samples@), a, b),
{
    let ghost views = sample::wrapper_views(samples@);
    let ghost keep = |i: int|
        station_map::holds(views[i].sample.ippe, a) && station_map::holds(views[i].sample.ippe, b);
    let mut r: Vec<usize> = Vec::new();
    let mut i: usize = 0;
    assert(lists::ints(r@) =~= lists::positions_where(0, keep));
    while i < samples.len()
        invariant
            i <= samples@.len(),
            views == sample::wrapper_views(samples@),
            keep == (|i: int|
                station_map::holds(views[i].sample.ippe, a) && station_map::holds(
                    views[i].sample.ippe,
                    b,
                )),
            lists::ints(r@) == lists::positions_where(i as nat, keep),
        decreases samples.len() - i,
    {
        let ippe = &samples[i].pose_sample.ippe_solutions;
        let ghost before = r@;
        assert(views[i as int].sample.ippe == ippe@);
        if ippe.contains(a) && ippe.contains(b) {
            r.push(i);
            assert(lists::ints(r@) =~= lists::ints(before).push(i as int));
        }
        i = i + 1;
    }
    r
}

fn sighted_stations(samples: &Vec<LhCfPoseSampleWrapper>) -> (ids: Vec<u8>)
    ensures
        forall|i: int, j: int|
            0 <= i < j < ids@.len() ==> #[trigger] ids@[i] < #[trigger] ids@[j],
        forall|id: u8| ids@.contains(id) <==> #[trigger] sighted(
            sample::wrapper_views(samples@),
            id,
        ),
{
    let ghost views = sample::wrapper_views(samples@);
    let mut all: StationMap<bool> = StationMap::new();
    let mut i: usize = 0;
    while i < samples.len()
        invariant
            i <= samples@.len(),
            views == sample::wrapper_views(samples@),
            station_map::ascending(all@),
            forall|id: u8| #[trigger]
                station_map::holds(all@, id) <==> exists|k: int|
                    0 <= k < i && station_map::holds((#[trigger] views[k]).sample.ippe, id),
        decreases samples.len() - i,
    {
        let ids = samples[i].pose_sample.ippe_solutions.ids();
        let ghost ippe = views[i as int].sample.ippe;
        assert(ids@ == station_map::ids_of(ippe));
        let ghost before = all@;
        let mut j: usize = 0;
        while j < ids.len()
            invariant
                j <= ids@.len(),
                ids@ == station_map::ids_of(ippe),
                station_map::ascending(all@),
                forall|id: u8| #[trigger]
                    station_map::holds(all@, id) <==> station_map::holds(before, id) || (exists|
                        k: int,
                    |
                        0 <= k < j && #[trigger] ids@[k] == id),
            decreases ids.len() - j,
        {
            let ghost at = all@;
            all.insert(ids[j], true);
            proof {
                station_map::law_inserted(at, ids@[j as int], true);
                assert forall|id: u8| #[trigger] station_map::holds(all@, id) <==> (
                station_map::holds(before, id) || (exists|k: int|
                    0 <= k < j + 1 && #[trigger] ids@[k] == id)) by {
                    if id != ids@[j as int] {
                        assert(station_map::value_of(all@, id) == station_map::value_of(at, id));
                    } else {
                        assert(station_map::value_of(all@, id) is Some);
                    }
                    assert(station_map::holds(at, id) <==> station_map::holds(before, id) || (
                    exists|k: int| 0 <= k < j && #[trigger] ids@[k] == id));
                }
            }
            j = j + 1;
        }
        proof {
            assert forall|id: u8| #[trigger] station_map::holds(all@, id) <==> exists|k: int|
                0 <= k < i + 1 && station_map::holds((#[trigger] views[k]).sample.ippe, id) by {
                if exists|k: int| 0 <= k < ids@.len() && #[trigger] ids@[k] == id {
                    let k = choose|k: int| 0 <= k < ids@.len() && #[trigger] ids@[k] == id;
                    assert(ippe[k].0 == id);
                    assert(station_map::holds(views[i as int].sample.ippe, id));
                }
                if station_map::holds(ippe, id) {
                    let k = choose|k: int| 0 <= k < ippe.len() && (#[trigger] ippe[k]).0 == id;
                    assert(ids@[k] == id);
                }
            }
        }
        i = i + 1;
    }
    let ids = all.ids();
    proof {
        assert forall|id: u8| ids@.contains(id) <==> #[trigger] sighted(views, id) by {
            assert(station_map::holds(all@, id) <==> sighted(views, id));
            if ids@.contains(id) {
                let k = choose|k: int| 0 <= k < ids@.len() && ids@[k] == id;
                assert(all@[k].0 == id);
            }
            if station_map::holds(all@, id) {
                let k = choose|k: int| 0 <= k < all@.len() && (#[trigger] all@[k]).0 == id;
                assert(ids@[k] == id);
            }
        }
        assert forall|i: int, j: int| 0 <= i < j < ids@.len() implies #[trigger] ids@[i]
            < #[trigger] ids@[j] by {
            assert(all@[i].0 < all@[j].0);
        }
    }
    ids
}

/// A distance below this puts a position into a group, 0.8 m.
pub const ACCEPT_RADIUS: u64 = 0x3fe9_9999_9999_999a;

/// The group a position belongs to: the first of the four whose reference is near enough.
pub open spec fn bucket_of(distances: [u64; 4]) -> Option<int> {
    if float_bits::double_less(distances[0], ACCEPT_RADIUS) {
        Some(0)
    } else if float_bits::double_less(distances[1], ACCEPT_RADIUS) {
        Some(1)
    } else if float_bits::double_less(distances[2], ACCEPT_RADIUS) {
        Some(2)
    } else if float_bits::double_less(distances[3], ACCEPT_RADIUS) {
        Some(3)
    } else {
        None
    }
}

/// The positions of a group.
pub open spec fn bucket(distances: Seq<[u64; 4]>, group: int) -> Seq<int> {
    lists::positions_where(distances.len(), |k: int| bucket_of(distances[k]) == Some(group))
}

/// The group with the most positions, the last one of several.
pub open spec fn fullest(distances: Seq<[u64; 4]>) -> int {
    let one = if bucket(distances, 1).len() >= bucket(distances, 0).len() {
        1int
    } else {
        0int
    };
    let two = if bucket(distances, 2).len() >= bucket(distances, one).len() {
        2int
    } else {
        one
    };
    if bucket(distances, 3).len() >= bucket(distances, two).len() {
        3
    } else {
        two
    }
}

/// No group has more positions than the one that is taken, and where any position is near a
/// reference, some are taken.
pub proof fn law_fullest(distances: Seq<[u64; 4]>, group: int)
    requires
        0 <= group < 4,
    ensures
        0 <= fullest(distances) < 4,
        bucket(distances, group).len() <= bucket(distances, fullest(distances)).len(),
        (exists|k: int| 0 <= k < distances.len() && bucket_of(#[trigger] distances[k]) == Some(group))
            ==> bucket(distances, fullest(distances)).len() > 0,
{
    let keep = |k: int| bucket_of(distances[k]) == Some(group);
    lists::lemma_positions_where(distances.len(), keep);
    if exists|k: int| 0 <= k < distances.len() && bucket_of(#[trigger] distances[k]) == Some(group) {
        let k = choose|k: int|
            0 <= k < distances.len() && bucket_of(#[trigger] distances[k]) == Some(group);
        assert(keep(k));
        assert(bucket(distances, group).contains(k));
    }
}

/// A position whose distance to any of the four references is below the accepted radius belongs
/// to the group of the first reference that near, and to no other group. A position that is near
/// none belongs to no group.
pub proof fn law_group_of_position(distances: Seq<[u64; 4]>, k: int, i: int)
    requires
        0 <= k < distances.len(),
        0 <= i < 4,
    ensures
        bucket(distances, i).contains(k) <==> float_bits::double_less(
            distances[k][i],
            0x3fe9_9999_9999_999a,
        ) && forall|j: int|
            0 <= j < i ==> !float_bits::double_less(#[trigger] distances[k][j], 0x3fe9_9999_9999_999a),
        forall|j: int|
            0 <= j < 4 && j != i && bucket(distances, i).contains(k) ==> !(#[trigger] bucket(
                distances,
                j,
            )).contains(k),
{
    assert forall|g: int| 0 <= g < 4 implies (#[trigger] bucket(distances, g)).contains(k) == (
    bucket_of(distances[k]) == Some(g)) by {
        let keep = |k: int| bucket_of(distances[k]) == Some(g);
        lists::lemma_positions_where(distances.len(), keep);
        if bucket_of(distances[k]) == Some(g) {
            assert(keep(k));
        }
        if bucket(distances, g).contains(k) {
            assert(keep(k));
        }
    }
    assert(bucket(distances, i).contains(k) == (bucket_of(distances[k]) == Some(i)));
    let d = distances[k];
    let near0 = float_bits::double_less(d[0], 0x3fe9_9999_9999_999a);
    let near1 = float_bits::double_less(d[1], 0x3fe9_9999_9999_999a);
    let near2 = float_bits::double_less(d[2], 0x3fe9_9999_9999_999a);
    assert(i == 0 || i == 1 || i == 2 || i == 3);
    assert((forall|j: int|
        0 <= j < i ==> !float_bits::double_less(#[trigger] distances[k][j], 0x3fe9_9999_9999_999a)) == ((i
        >= 1 ==> !near0) && (i >= 2 ==> !near1) && (i >= 3 ==> !near2))) by {
        if (i >= 1 ==> !near0) && (i >= 2 ==> !near1) && (i >= 3 ==> !near2) {
            assert forall|j: int| 0 <= j < i implies !float_bits::double_less(
                #[trigger] distances[k][j],
                0x3fe9_9999_9999_999a,
            ) by {
                assert(j == 0 || j == 1 || j == 2);
            }
        } else {
            assert(distances[k][0] == d[0] && distances[k][1] == d[1] && distances[k][2] == d[2]);
        }
    }
}

/// The positions that are taken are at least as many as any different positions with the same
/// first near reference, and more than those of a later reference.
pub proof fn law_most_positions_taken(distances: Seq<[u64; 4]>, some: Seq<int>, i: int)
    requires
        0 <= i < 4,
        some.no_duplicates(),
        forall|n: int|
            0 <= n < some.len() ==> {
                &&& 0 <= #[trigger] some[n] < distances.len()
                &&& float_bits::double_less(distances[some[n]][i], 0x3fe9_9999_9999_999a)
                &&& forall|j: int|
                    0 <= j < i ==> !float_bits::double_less(
                        #[trigger] distances[some[n]][j],
                        0x3fe9_9999_9999_999a,
                    )
            },
    ensures
        some.len() <= bucket(distances, fullest(distances)).len(),
        i > fullest(distances) ==> some.len() < bucket(distances, fullest(distances)).len(),
{
    let group = bucket(distances, i);
    let keep = |k: int| bucket_of(distances[k]) == Some(i);
    lists::lemma_positions_where(distances.len(), keep);
    assert forall|k: int| some.to_set().contains(k) implies #[trigger] group.to_set().contains(k) by {
        let n = choose|n: int| 0 <= n < some.len() && some[n] == k;
        assert(0 <= some[n] < distances.len());
        law_group_of_position(distances, k, i);
    }
    assert(group.no_duplicates());
    some.unique_seq_to_set();
    group.unique_seq_to_set();
    vstd::set_lib::lemma_len_subset(some.to_set(), group.to_set());
    law_fullest(distances, i);
}

fn positions_of_bucket(distances: &Vec<[u64; 4]>, group: usize) -> (members: Vec<usize>)
    requires
        group < 4,
    ensures
        lists::ints(members@) == bucket(distances@, group as int),
{
    let ghost keep = |k: int| bucket_of(distances@[k]) == Some(group as int);
    let mut members: Vec<usize> = Vec::new();
    let mut k: usize = 0;
    assert(lists::ints(members@) =~= lists::positions_where(0, keep));
    while k < distances.len()
        invariant
            k <= distances@.len(),
            group < 4,
            keep == (|k: int| bucket_of(distances@[k]) == Some(group as int)),
            lists::ints(members@) == lists::positions_where(k as nat, keep),
        decreases distances.len() - k,
    {
        let d = distances[k];
        let at: usize = if float_bits::less_double(d[0], ACCEPT_RADIUS) {
            0
        } else if float_bits::less_double(d[1], ACCEPT_RADIUS) {
            1
        } else if float_bits::less_double(d[2], ACCEPT_RADIUS) {
            2
        } else if float_bits::less_double(d[3], ACCEPT_RADIUS) {
            3
        } else {
            4
        };
        let ghost before = members@;
        if at == group {
            members.push(k);
            assert(lists::ints(members@) =~= lists::ints(before).push(k as int));
        }
        k = k + 1;
    }
    members
}

/// A distance up to this tells two possible poses apart from the others, 0.5 m.
pub const AMBIGUOUS_DETECTION_ERROR: u64 = 0x3fe0_0000_0000_0000;

/// The largest double.
pub const DOUBLE_MAX: u64 = 0x7fef_ffff_ffff_ffff;

/// The first one of the smallest among the first `n` distances.
pub open spec fn closest(distances: [u64; 4], n: nat) -> Option<int>
    decreases n,
{
    if n == 0 {
        None
    } else {
        let before = closest(distances, (n - 1) as nat);
        let limit = match before {
            Some(b) => distances[b],
            None => DOUBLE_MAX,
        };
        if float_bits::double_less(distances[n - 1], limit) {
            Some(n - 1)
        } else {
            before
        }
    }
}

/// The combination of two possible poses each that fits: the closest one, if it is close
/// enough.
pub open spec fn chosen(distances: [u64; 4]) -> Option<int> {
    match closest(distances, 4) {
        Some(b) => if float_bits::double_at_least(AMBIGUOUS_DETECTION_ERROR, distances[b]) {
            Some(b)
        } else {
            None
        },
        None => None,
    }
}

/// What is chosen is close enough, nothing is closer, and it is the first one that close. When
/// nothing is chosen, nothing is close enough.
pub proof fn law_choice(distances: [u64; 4], k: int)
    requires
        0 <= k < 4,
    ensures
        chosen(distances) matches Some(b) ==> {
            &&& 0 <= b < 4
            &&& float_bits::double_at_least(0x3fe0_0000_0000_0000, distances[b])
            &&& !float_bits::double_less(distances[k], distances[b])
            &&& k < b ==> !float_bits::double_at_least(distances[b], distances[k])
        },
        chosen(distances) is None ==> !float_bits::double_at_least(
            0x3fe0_0000_0000_0000,
            distances[k],
        ),
{
    reveal_with_fuel(closest, 5);
    assert(k == 0 || k == 1 || k == 2 || k == 3);
}

/// The combination at place `k` of two possible poses each; they count through the poses of the
/// second base station first.
pub open spec fn combination(one: BsPairPoses, two: BsPairPoses, k: int) -> BsPairPoses {
    BsPairPoses(possible(one, k >= 2), possible(two, k % 2 == 1))
}

/// The combination whose distance is smallest, however large that is; poses at the origin where
/// no distance is below the largest double.
pub open spec fn best_pair(
    one: BsPairPoses,
    two: BsPairPoses,
    distances: [u64; 4],
) -> BsPairPoses {
    match closest(distances, 4) {
        Some(k) => combination(one, two, k),
        None => BsPairPoses(types::identity_pose(), types::identity_pose()),
    }
}

/// Where any distance is below the largest double, the best pair is one of the four
/// combinations, no combination is closer, and it is the first one that close. It is close enough
/// if and only if some combination is.
pub proof fn law_best_pair(one: BsPairPoses, two: BsPairPoses, distances: [u64; 4], k: int)
    requires
        0 <= k < 4,
        float_bits::double_less(distances[k], 0x7fef_ffff_ffff_ffff),
    ensures
        closest(distances, 4) matches Some(b) && {
            &&& 0 <= b < 4
            &&& best_pair(one, two, distances) == combination(one, two, b)
            &&& !float_bits::double_less(distances[k], distances[b])
            &&& k < b ==> !float_bits::double_at_least(distances[b], distances[k])
            &&& chosen(distances) is Some <==> float_bits::double_at_least(
                0x3fe0_0000_0000_0000,
                distances[b],
            )
        },
        float_bits::double_at_least(0x3fe0_0000_0000_0000, distances[k]) ==> chosen(
            distances,
        ) is Some,
{
    reveal_with_fuel(closest, 5);
    assert(k == 0 || k == 1 || k == 2 || k == 3);
}

// ---------------------------------------------------------------------------
// The poses that fit in each sample
// ---------------------------------------------------------------------------

/// How the base stations of a sample fit together.
#[derive(Debug, Clone, Copy, PartialEq, Eq, Structural)]
pub enum ScanOutcome {
    /// Every base station has a pose.
    Linked,
    /// Two base stations fit in no way.
    Ambiguous,
    /// Where two base stations are to each other is not known.
    Unlinked,
}

/// The poses found in a sample.
#[verifier::ext_equal]
pub struct ScanView {
    pub poses: Seq<(u8, Pose)>,
    pub outcome: ScanOutcome,
}

/// One of two possible poses.
pub open spec fn possible(poses: BsPairPoses, second: bool) -> Pose {
    if second {
        poses.1
    } else {
        poses.0
    }
}

/// The first base station is compared with the next `n`, up to the first that does not fit. Of
/// each there may be distances for the four combinations of possible poses.
pub open spec fn scan(
    ippe: Seq<(u8, BsPairPoses)>,
    distances: Seq<Option<[u64; 4]>>,
    n: nat,
) -> ScanView
    decreases n,
{
    if n == 0 {
        ScanView { poses: Seq::empty(), outcome: ScanOutcome::Linked }
    } else {
        let before = scan(ippe, distances, (n - 1) as nat);
        if !(before.outcome is Linked) {
            before
        } else {
            match distances[n - 1] {
                None => ScanView { outcome: ScanOutcome::Unlinked, ..before },
                Some(d) => match chosen(d) {
                    None => ScanView { outcome: ScanOutcome::Ambiguous, ..before },
                    Some(k) => ScanView {
                        poses: station_map::inserted(
                            station_map::inserted(
                                before.poses,
                                ippe[0].0,
                                possible(ippe[0].1, k >= 2),
                            ),
                            ippe[n as int].0,
                            possible(ippe[n as int].1, k % 2 == 1),
                        ),
                        ..before
                    },
                },
            }
        }
    }
}

/// The distances of each sample.
pub open spec fn distance_lists(distances: Seq<Vec<Option<[u64; 4]>>>) -> Seq<
    Seq<Option<[u64; 4]>>,
> {
    Seq::new(distances.len(), |i: int| distances[i]@)
}

/// The samples that were looked at: the poses found in those that are kept, and what the others
/// mean for the estimation.
#[verifier::ext_equal]
pub struct SelectionView {
    pub poses: Seq<Seq<(u8, Pose)>>,
    pub kept: Seq<int>,
    pub skipped: nat,
    pub progress_is_ok: bool,
    pub info: Seq<char>,
    pub statuses: Seq<LhCfPoseSampleStatus>,
}

/// The report on samples that were skipped.
pub open spec fn skipped_text(n: nat) -> Seq<char> {
    text::decimal(n) + " sample(s) with ambiguities skipped"@
}

/// The outcome for the first `n` samples. A sample without possible poses is passed over. An
/// ambiguous sample is skipped and reported, but a mandatory one ends the estimation. A sample
/// whose base stations are not known to each other is dropped unless it is mandatory.
pub open spec fn selection(
    samples: Seq<WrapperView>,
    distances: Seq<Seq<Option<[u64; 4]>>>,
    progress_is_ok: bool,
    info: Seq<char>,
    n: nat,
) -> SelectionView
    decreases n,
{
    if n == 0 {
        SelectionView {
            poses: Seq::empty(),
            kept: Seq::empty(),
            skipped: 0,
            progress_is_ok,
            info,
            statuses: Seq::empty(),
        }
    } else {
        let before = selection(samples, distances, progress_is_ok, info, (n - 1) as nat);
        let s = samples[n - 1];
        if s.sample.ippe.len() == 0 {
            SelectionView { statuses: before.statuses.push(s.status), ..before }
        } else {
            let found = scan(s.sample.ippe, distances[n - 1], (s.sample.ippe.len() - 1) as nat);
            let ambiguous = found.outcome is Ambiguous;
            let keeps = found.outcome is Linked || s.is_mandatory;
            SelectionView {
                poses: if keeps {
                    before.poses.push(found.poses)
                } else {
                    before.poses
                },
                kept: if keeps {
                    before.kept.push(n - 1)
                } else {
                    before.kept
                },
                skipped: if ambiguous && !s.is_mandatory {
                    before.skipped + 1
                } else {
                    before.skipped
                },
                progress_is_ok: before.progress_is_ok && !(ambiguous && s.is_mandatory),
                info: if ambiguous && !s.is_mandatory {
                    skipped_text(before.skipped + 1)
                } else {
                    before.info
                },
                statuses: before.statuses.push(
                    if ambiguous {
                        LhCfPoseSampleStatus::Ambiguous
                    } else {
                        s.status
                    },
                ),
            }
        }
    }
}

/// The kept samples are some of those looked at, in ascending order, and each has its poses.
pub proof fn lemma_selection_kept(
    samples: Seq<WrapperView>,
    distances: Seq<Seq<Option<[u64; 4]>>>,
    progress_is_ok: bool,
    info: Seq<char>,
    n: nat,
)
    requires
        n <= samples.len(),
    ensures
        ({
            let s = selection(samples, distances, progress_is_ok, info, n);
            &&& s.poses.len() == s.kept.len()
            &&& s.kept.len() <= n
            &&& s.statuses.len() == n
            &&& forall|i: int| 0 <= i < s.kept.len() ==> 0 <= #[trigger] s.kept[i] < n
            &&& forall|i: int, j: int|
                0 <= i < j < s.kept.len() ==> #[trigger] s.kept[i] < #[trigger] s.kept[j]
        }),
    decreases n,
{
    if n > 0 {
        lemma_selection_kept(samples, distances, progress_is_ok, info, (n - 1) as nat);
    }
}

/// Samples with their states replaced.
pub open spec fn with_statuses(
    samples: Seq<WrapperView>,
    statuses: Seq<LhCfPoseSampleStatus>,
) -> Seq<WrapperView> {
    Seq::new(samples.len(), |i: int| WrapperView { status: statuses[i], ..samples[i] })
}

/// Lists of poses as sequences.
pub open spec fn pose_lists(poses: Seq<StationMap<Pose>>) -> Seq<Seq<(u8, Pose)>> {
    Seq::new(poses.len(), |i: int| poses[i]@)
}

/// For each sample there may be distances for each base station but the first.
pub open spec fn distances_fit(
    samples: Seq<WrapperView>,
    distances: Seq<Seq<Option<[u64; 4]>>>,
) -> bool {
    &&& distances.len() == samples.len()
    &&& forall|i: int|
        0 <= i < samples.len() && samples[i].sample.ippe.len() > 0 ==> (
        #[trigger] distances[i]).len() == samples[i].sample.ippe.len() - 1
}

fn one_of(poses: &BsPairPoses, second: bool) -> (pose: Pose)
    ensures
        pose == possible(*poses, second),
{
    if second {
        poses.1
    } else {
        poses.0
    }
}

fn scan_sample(
    ippe: &StationMap<BsPairPoses>,
    distances: &Vec<Option<[u64; 4]>>,
) -> (found: (StationMap<Pose>, ScanOutcome))
    requires
        ippe@.len() > 0,
        distances@.len() == ippe@.len() - 1,
    ensures
        ({
            let s = scan(ippe@, distances@, (ippe@.len() - 1) as nat);
            found.0@ == s.poses && found.1 == s.outcome
        }),
{
    let mut poses: StationMap<Pose> = StationMap::new();
    let mut outcome: ScanOutcome = ScanOutcome::Linked;
    let mut n: usize = 0;
    while n < distances.len()
        invariant
            n <= distances@.len(),
            distances@.len() == ippe@.len() - 1,
            poses@ == scan(ippe@, distances@, n as nat).poses,
            outcome == scan(ippe@, distances@, n as nat).outcome,
        decreases distances.len() - n,
    {
        if outcome == ScanOutcome::Linked {
            match distances[n] {
                None => {
                    outcome = ScanOutcome::Unlinked;
                },
                Some(d) => {
                    let first = ippe.entry(0);
                    let other = ippe.entry(n + 1);
                    let (success, pair) = LighthouseInitialEstimator::choose_solutions(
                        &first.1,
                        &other.1,
                        &d,
                    );
                    if success {
                        poses.insert(first.0, pair.0);
                        poses.insert(other.0, pair.1);
                    } else {
                        outcome = ScanOutcome::Ambiguous;
                    }
                },
            }
        }
        n = n + 1;
    }
    (poses, outcome)
}

impl LighthouseInitialEstimator {
    /// Finds the pairs of base stations that have possible poses in the same sample, each with
    /// those samples. The position of one base station seen from the other is to be computed
    /// for each.
    pub fn find_bs_to_bs_poses(samples: &Vec<LhCfPoseSampleWrapper>) -> (table: Vec<PairSightings>)
        ensures
            forall|t: int|
                0 <= t < table@.len() ==> {
                    &&& (#[trigger] table@[t]).pair.0 < table@[t].pair.1
                    &&& table@[t].samples@.len() > 0
                    &&& lists::ints(table@[t].samples@) == sightings(
                        sample::wrapper_views(samples@),
                        table@[t].pair.0,
                        table@[t].pair.1,
                    )
                },
            forall|a: u8, b: u8|
                a < b && (#[trigger] sightings(sample::wrapper_views(samples@), a, b)).len() > 0
                    ==> exists|t: int|
                    0 <= t < table@.len() && (#[trigger] table@[t]).pair == BsPairIds(a, b),
            forall|t: int, u: int|
                0 <= t < u < table@.len() ==> (#[trigger] table@[t]).pair != (
                #[trigger] table@[u]).pair,
    {
        let ghost views = sample::wrapper_views(samples@);
        let ids = sighted_stations(samples);
        let pairs = Self::add_solution_permutations(&ids);
        let mut table: Vec<PairSightings> = Vec::new();
        let ghost mut from: Seq<int> = Seq::empty();
        let mut i: usize = 0;
        proof {
            lists::lemma_pairs_from(0, ids@.len() as int);
        }
        while i < pairs.len()
            invariant
                i <= pairs@.len(),
                views == sample::wrapper_views(samples@),
                forall|k: int|
                    0 <= k < pairs@.len() ==> (#[trigger] pairs@[k]).0 < pairs@[k].1,
                from.len() == table@.len(),
                forall|t: int|
                    0 <= t < table@.len() ==> {
                        &&& 0 <= #[trigger] from[t] < i
                        &&& table@[t].pair == pairs@[from[t]]
                    },
                forall|t: int, u: int|
                    0 <= t < u < from.len() ==> #[trigger] from[t] < #[trigger] from[u],
                forall|t: int|
                    0 <= t < table@.len() ==> {
                        &&& (#[trigger] table@[t]).samples@.len() > 0
                        &&& lists::ints(table@[t].samples@) == sightings(
                            views,
                            table@[t].pair.0,
                            table@[t].pair.1,
                        )
                    },
                forall|k: int|
                    0 <= k < i && (sightings(
                        views,
                        (#[trigger] pairs@[k]).0,
                        pairs@[k].1,
                    )).len() > 0 ==> exists|t: int|
                        0 <= t < table@.len() && (#[trigger] table@[t]).pair == pairs@[k],
            decreases pairs.len() - i,
        {
            let pair = pairs[i];
            let found = samples_with_both(samples, pair.0, pair.1);
            let ghost before = table@;
            let ghost before_from = from;
            assert(lists::ints(found@).len() == found@.len());
            if found.len() > 0 {
                table.push(PairSightings { pair, samples: found });
                proof {
                    from = from.push(i as int);
                }
                assert(table@[before.len() as int].pair == pairs@[i as int]);
            }
            assert forall|k: int|
                0 <= k < i + 1 && (sightings(
                    views,
                    (#[trigger] pairs@[k]).0,
                    pairs@[k].1,
                )).len() > 0 implies exists|t: int|
                0 <= t < table@.len() && (#[trigger] table@[t]).pair == pairs@[k] by {
                if k < i {
                    let t = choose|t: int|
                        0 <= t < before.len() && (#[trigger] before[t]).pair == pairs@[k];
                    assert(table@[t] == before[t]);
                }
            }
            i = i + 1;
        }
        proof {
            assert forall|a: u8, b: u8|
                a < b && (#[trigger] sightings(views, a, b)).len() > 0 implies exists|t: int|
                0 <= t < table@.len() && (#[trigger] table@[t]).pair == BsPairIds(a, b) by {
                let keep = |i: int|
                    station_map::holds(views[i].sample.ippe, a) && station_map::holds(
                        views[i].sample.ippe,
                        b,
                    );
                lists::lemma_positions_where(views.len(), keep);
                let p = sightings(views, a, b)[0];
                assert(keep(p));
                assert(sighted(views, a));
                assert(sighted(views, b));
                let x = choose|x: int| 0 <= x < ids@.len() && ids@[x] == a;
                let y = choose|y: int| 0 <= y < ids@.len() && ids@[y] == b;
                assert(ids@.contains(a) && ids@.contains(b));
                if y < x {
                    assert(ids@[y] < ids@[x]);
                }
                let all = lists::pairs_from(0, ids@.len() as int);
                assert(all.contains((x, y)));
                let k = choose|k: int| 0 <= k < all.len() && all[k] == (x, y);
                assert(pairs@[k] == BsPairIds(a, b));
            }
            assert forall|t: int| 0 <= t < table@.len() implies (#[trigger] table@[t]).pair.0
                < table@[t].pair.1 by {
                assert(table@[t].pair == pairs@[from[t]]);
            }
            assert forall|t: int, u: int| 0 <= t < u < table@.len() implies (
            #[trigger] table@[t]).pair != (#[trigger] table@[u]).pair by {
                let all = lists::pairs_from(0, ids@.len() as int);
                let k = from[t];
                let l = from[u];
                assert(k < l);
                assert(all[k] != all[l]);
                let (x, y) = all[k];
                let (v, w) = all[l];
                if x < v {
                    assert(ids@[x] < ids@[v]);
                } else if v < x {
                    assert(ids@[v] < ids@[x]);
                } else if y < w {
                    assert(ids@[y] < ids@[w]);
                } else {
                    assert(ids@[w] < ids@[y]);
                }
            }
        }
        table
    }

    /// The pairs of base stations with possible poses in one sample, given their numbers in
    /// ascending order: each with every later one.
    pub fn add_solution_permutations(ids: &Vec<u8>) -> (pairs: Vec<BsPairIds>)
        requires
            forall|i: int, j: int|
                0 <= i < j < ids@.len() ==> #[trigger] ids@[i] < #[trigger] ids@[j],
        ensures
            pairs@.len() == lists::pairs_from(0, ids@.len() as int).len(),
            forall|k: int|
                0 <= k < pairs@.len() ==> {
                    &&& #[trigger] pairs@[k] == BsPairIds(
                        ids@[lists::pairs_from(0, ids@.len() as int)[k].0],
                        ids@[lists::pairs_from(0, ids@.len() as int)[k].1],
                    )
                    &&& pairs@[k].0 < pairs@[k].1
                },
    {
        let places = lists::index_pairs(ids.len());
        let ghost all = lists::pairs_from(0, ids@.len() as int);
        let mut pairs: Vec<BsPairIds> = Vec::new();
        let mut k: usize = 0;
        proof {
            lists::lemma_pairs_from(0, ids@.len() as int);
        }
        assert(lists::int_pairs(places@).len() == places@.len());
        while k < places.len()
            invariant
                k <= places@.len(),
                pairs@.len() == k,
                all == lists::pairs_from(0, ids@.len() as int),
                places@.len() == all.len(),
                lists::int_pairs(places@) == all,
                forall|i: int|
                    0 <= i < all.len() ==> 0 <= (#[trigger] all[i]).0 < all[i].1 < ids@.len(),
                forall|i: int, j: int|
                    0 <= i < j < ids@.len() ==> #[trigger] ids@[i] < #[trigger] ids@[j],
                forall|i: int|
                    0 <= i < k ==> {
                        &&& #[trigger] pairs@[i] == BsPairIds(ids@[all[i].0], ids@[all[i].1])
                        &&& pairs@[i].0 < pairs@[i].1
                    },
            decreases places.len() - k,
        {
            let (a, b) = places[k];
            assert(lists::int_pairs(places@)[k as int] == (a as int, b as int));
            assert(ids@[a as int] < ids@[b as int]);
            pairs.push(BsPairIds(ids[a], ids[b]));
            k = k + 1;
        }
        pairs
    }

    /// The positions to average for a pair of base stations, given the distances of each from
    /// the four of the first sample: those of the fullest group. Nothing if none is near any.
    pub fn find_most_likely_positions(distances: &Vec<[u64; 4]>) -> (members: Option<Vec<usize>>)
        ensures
            members is Some <==> bucket(distances@, fullest(distances@)).len() > 0,
            members matches Some(m) ==> lists::ints(m@) == bucket(
                distances@,
                fullest(distances@),
            ),
    {
        let mut best = positions_of_bucket(distances, 0);
        let one = positions_of_bucket(distances, 1);
        let two = positions_of_bucket(distances, 2);
        let three = positions_of_bucket(distances, 3);
        assert(lists::ints(best@).len() == best@.len());
        assert(lists::ints(one@).len() == one@.len());
        assert(lists::ints(two@).len() == two@.len());
        assert(lists::ints(three@).len() == three@.len());
        if one.len() >= best.len() {
            best = one;
        }
        if two.len() >= best.len() {
            best = two;
        }
        if three.len() >= best.len() {
            best = three;
        }
        if best.len() > 0 {
            Some(best)
        } else {
            None
        }
    }

    /// Picks the combination of two possible poses each whose distance from what is expected is
    /// smallest, and tells whether that distance is small enough. The distances of the four
    /// combinations count through the poses of the second base station first.
    pub fn choose_solutions(
        solutions_1: &BsPairPoses,
        solutions_2: &BsPairPoses,
        distances: &[u64; 4],
    ) -> (choice: (bool, BsPairPoses))
        ensures
            choice.0 == (chosen(*distances) is Some),
            choice.1 == best_pair(*solutions_1, *solutions_2, *distances),
    {
        let mut best: Option<usize> = None;
        let mut limit: u64 = DOUBLE_MAX;
        let mut k: usize = 0;
        while k < 4
            invariant
                k <= 4,
                match best {
                    Some(b) => b < 4 && closest(*distances, k as nat) == Some(b as int) && limit
                        == distances[b as int],
                    None => closest(*distances, k as nat) is None && limit == DOUBLE_MAX,
                },
            decreases 4 - k,
        {
            if float_bits::less_double(distances[k], limit) {
                best = Some(k);
                limit = distances[k];
            }
            k = k + 1;
        }
        match best {
            Some(b) => (
                float_bits::at_least_double(AMBIGUOUS_DETECTION_ERROR, distances[b]),
                BsPairPoses(one_of(solutions_1, b >= 2), one_of(solutions_2, b % 2 == 1)),
            ),
            None => (false, BsPairPoses(Pose::default(), Pose::default())),
        }
    }

    /// Finds in each sample the poses of its base stations that fit to each other. For each
    /// base station but the first there may be the distances of the four combinations from what
    /// is expected. Gives the poses of the samples that are kept, and which those are.
    pub fn angles_to_poses(
        matched_samples: &mut Vec<LhCfPoseSampleWrapper>,
        distances: &Vec<Vec<Option<[u64; 4]>>>,
        solution: &mut LighthouseGeometrySolution,
    ) -> (found: (Vec<StationMap<Pose>>, Vec<usize>))
        requires
            distances_fit(sample::wrapper_views(old(matched_samples)@), distance_lists(distances@)),
        ensures
            ({
                let before = sample::wrapper_views(old(matched_samples)@);
                let s = selection(
                    before,
                    distance_lists(distances@),
                    old(solution)@.progress_is_ok,
                    old(solution)@.xyz_space_samples_info,
                    before.len(),
                );
                &&& pose_lists(found.0@) == s.poses
                &&& lists::ints(found.1@) == s.kept
                &&& sample::wrapper_views(final(matched_samples)@) == with_statuses(
                    before,
                    s.statuses,
                )
                &&& final(solution)@ == (SolutionView {
                    progress_is_ok: s.progress_is_ok,
                    xyz_space_samples_info: s.info,
                    ..old(solution)@
                })
            }),
    {
        let ghost before = sample::wrapper_views(matched_samples@);
        let ghost list = matched_samples@;
        let ghost dist = distance_lists(distances@);
        let ghost ok = solution@.progress_is_ok;
        let ghost info = solution@.xyz_space_samples_info;
        let ghost start = solution@;
        let n: usize = matched_samples.len();
        let mut poses: Vec<StationMap<Pose>> = Vec::new();
        let mut kept: Vec<usize> = Vec::new();
        let mut skipped: u64 = 0;
        let mut i: usize = 0;
        assert(pose_lists(poses@) =~= Seq::empty());
        assert(lists::ints(kept@) =~= Seq::empty());
        while i < n
            invariant
                i <= n,
                n == before.len(),
                matched_samples@.len() == n,
                list.len() == n,
                before == sample::wrapper_views(list),
                dist == distance_lists(distances@),
                distances_fit(before, dist),
                skipped == selection(before, dist, ok, info, i as nat).skipped,
                skipped <= i,
                pose_lists(poses@) == selection(before, dist, ok, info, i as nat).poses,
                lists::ints(kept@) == selection(before, dist, ok, info, i as nat).kept,
                selection(before, dist, ok, info, i as nat).statuses.len() == i,
                forall|k: int|
                    0 <= k < i ==> (#[trigger] matched_samples@[k])@ == (WrapperView {
                        status: selection(before, dist, ok, info, i as nat).statuses[k],
                        ..before[k]
                    }),
                forall|k: int| i <= k < n ==> #[trigger] matched_samples@[k] == list[k],
                solution@ == (SolutionView {
                    progress_is_ok: selection(before, dist, ok, info, i as nat).progress_is_ok,
                    xyz_space_samples_info: selection(before, dist, ok, info, i as nat).info,
                    ..start
                }),
            decreases n - i,
        {
            let ghost sel = selection(before, dist, ok, info, i as nat);
            let ghost next = selection(before, dist, ok, info, (i + 1) as nat);
            let ghost at = matched_samples@;
            let ghost poses_before = poses@;
            let ghost kept_before = kept@;
            assert(matched_samples@[i as int] == list[i as int]);
            assert(before[i as int] == list[i as int]@);
            assert(dist[i as int] == distances@[i as int]@);
            if matched_samples[i].pose_sample.ippe_solutions.len() > 0 {
                let (found, outcome) = scan_sample(
                    &matched_samples[i].pose_sample.ippe_solutions,
                    &distances[i],
                );
                let mandatory: bool = matched_samples[i].is_mandatory;
                if outcome == ScanOutcome::Ambiguous {
                    let sample = &mut matched_samples[i];
                    sample.status = LhCfPoseSampleStatus::Ambiguous;
                    if mandatory {
                        solution.progress_is_ok = false;
                    } else {
                        skipped = skipped + 1;
                        let mut report = text::decimal_string(skipped);
                        report.append(" sample(s) with ambiguities skipped");
                        solution.xyz_space_samples_info = report;
                    }
                }
                if outcome == ScanOutcome::Linked || mandatory {
                    poses.push(found);
                    kept.push(i);
                    assert(pose_lists(poses@) =~= pose_lists(poses_before).push(found@));
                    assert(lists::ints(kept@) =~= lists::ints(kept_before).push(i as int));
                }
            }
            proof {
                assert(next.statuses =~= sel.statuses.push(next.statuses[i as int]));
                assert forall|k: int| 0 <= k < i + 1 implies (#[trigger] matched_samples@[k])@ == (
                WrapperView { status: next.statuses[k], ..before[k] }) by {
                    if k < i {
                        assert(matched_samples@[k] == at[k]);
                    }
                }
            }
            i = i + 1;
        }
        assert(sample::wrapper_views(matched_samples@) =~= with_statuses(
            before,
            selection(before, dist, ok, info, n as nat).statuses,
        ));
        (poses, kept)
    }

    /// Takes over what was estimated: the pose of the Crazyflie in each kept sample and the
    /// poses of the base stations, or the reason why there are none.
    pub fn estimate_full(
        matched_samples: &mut Vec<LhCfPoseSampleWrapper>,
        kept_indices: &Vec<usize>,
        outcome: Result<(StationMap<Pose>, Vec<Pose>), String>,
        solution: &mut LighthouseGeometrySolution,
    )
        requires
            forall|i: int|
                0 <= i < kept_indices@.len() ==> (#[trigger] kept_indices@[i]) < old(
                    matched_samples,
                )@.len(),
        ensures
            match outcome {
                Ok((bs_poses, cf_poses)) => {
                    &&& final(solution)@ == (SolutionView {
                        bs_poses: bs_poses@,
                        ..old(solution)@
                    })
                    &&& sample::wrapper_views(final(matched_samples)@) == with_cf_poses(
                        sample::wrapper_views(old(matched_samples)@),
                        kept_indices@,
                        cf_poses@,
                        kept_indices@.len(),
                    )
                },
                Err(reason) => {
                    &&& final(solution)@ == (SolutionView {
                        progress_is_ok: false,
                        general_failure_info: reason@,
                        ..old(solution)@
                    })
                    &&& final(matched_samples)@ == old(matched_samples)@
                },
            },
    {
        match outcome {
            Ok((bs_poses, cf_poses)) => {
                let ghost before = sample::wrapper_views(matched_samples@);
                let mut i: usize = 0;
                while i < kept_indices.len()
                    invariant
                        i <= kept_indices@.len(),
                        matched_samples@.len() == old(matched_samples)@.len(),
                        forall|k: int|
                            0 <= k < kept_indices@.len() ==> (#[trigger] kept_indices@[k]) < old(
                                matched_samples,
                            )@.len(),
                        sample::wrapper_views(matched_samples@) == with_cf_poses(
                            before,
                            kept_indices@,
                            cf_poses@,
                            i as nat,
                        ),
                    decreases kept_indices.len() - i,
                {
                    if i < cf_poses.len() {
                        let ghost at = matched_samples@;
                        let place: usize = kept_indices[i];
                        let sample = &mut matched_samples[place];
                        sample.set_pose(cf_poses[i]);
                        assert(sample::wrapper_views(matched_samples@) =~= sample::wrapper_views(
                            at,
                        ).update(
                            place as int,
                            WrapperView { pose: Some(cf_poses@[i as int]), ..at[place as int]@ },
                        ));
                    }
                    i = i + 1;
                }
                solution.bs_poses = bs_poses;
            },
            Err(reason) => {
                solution.progress_is_ok = false;
                solution.general_failure_info = reason;
            },
        }
    }

    /// The largest of four eigenvalues, the first one of several.
    pub fn largest_eigenvalue(values: &[u64; 4]) -> (at: usize)
        ensures
            at < 4,
            at == largest(*values, 4),
    {
        let mut at: usize = 0;
        let mut i: usize = 1;
        while i < 4
            invariant
                1 <= i <= 4,
                at < 4,
                at == largest(*values, i as nat),
            decreases 4 - i,
        {
            if float_bits::less_double(values[at], values[i]) {
                at = i;
            }
            i = i + 1;
        }
        at
    }
}

/// The largest of the first `n` values, the first one of several.
pub open spec fn largest(values: [u64; 4], n: nat) -> int
    decreases n,
{
    if n <= 1 {
        0
    } else {
        let before = largest(values, (n - 1) as nat);
        if float_bits::double_less(values[before], values[n - 1]) {
            n - 1
        } else {
            before
        }
    }
}

/// The samples with the poses of the Crazyflie in the first `n` that are kept.
pub open spec fn with_cf_poses(
    samples: Seq<WrapperView>,
    kept: Seq<usize>,
    poses: Seq<Pose>,
    n: nat,
) -> Seq<WrapperView>
    decreases n,
{
    if n == 0 {
        samples
    } else {
        let before = with_cf_poses(samples, kept, poses, (n - 1) as nat);
        if n <= poses.len() {
            let place = kept[n - 1] as int;
            before.update(place, WrapperView { pose: Some(poses[n - 1]), ..before[place] })
        } else {
            before
        }
    }
}

/// Two base stations are sighted together in the samples in which both have possible poses,
/// whichever is named first.
pub proof fn law_sightings(samples: Seq<WrapperView>, a: u8, b: u8, i: int)
    ensures
        sightings(samples, a, b).contains(i) <==> 0 <= i < samples.len() && station_map::holds(
            samples[i].sample.ippe,
            a,
        ) && station_map::holds(samples[i].sample.ippe, b),
        sightings(samples, a, b).contains(i) <==> sightings(samples, b, a).contains(i),
{
    lemma_sightings(samples, a, b, i);
    lemma_sightings(samples, b, a, i);
}

proof fn lemma_sightings(samples: Seq<WrapperView>, a: u8, b: u8, i: int)
    ensures
        sightings(samples, a, b).contains(i) <==> 0 <= i < samples.len() && station_map::holds(
            samples[i].sample.ippe,
            a,
        ) && station_map::holds(samples[i].sample.ippe, b),
{
    let keep = |i: int|
        station_map::holds(samples[i].sample.ippe, a) && station_map::holds(
            samples[i].sample.ippe,
            b,
        );
    lists::lemma_positions_where(samples.len(), keep);
    if sightings(samples, a, b).contains(i) {
        let k = sightings(samples, a, b).index_of(i);
        assert(keep(sightings(samples, a, b)[k]));
    }
    if 0 <= i < samples.len() && station_map::holds(samples[i].sample.ippe, a)
        && station_map::holds(samples[i].sample.ippe, b) {
        assert(keep(i));
    }
}

/// The four combinations: the first pose of one base station with both of the other, and then the
/// second one with both.
pub proof fn law_combinations(one: BsPairPoses, two: BsPairPoses)
    ensures
        combination(one, two, 0) == BsPairPoses(one.0, two.0),
        combination(one, two, 1) == BsPairPoses(one.0, two.1),
        combination(one, two, 2) == BsPairPoses(one.1, two.0),
        combination(one, two, 3) == BsPairPoses(one.1, two.1),
{
}

/// A sample is linked if and only if every base station fits to the first one. The first that does
/// not decides otherwise: it is unlinked if nothing is expected of it, and ambiguous if no
/// combination is close enough.
pub proof fn law_scan_outcome(
    ippe: Seq<(u8, BsPairPoses)>,
    distances: Seq<Option<[u64; 4]>>,
    n: nat,
    i: int,
)
    ensures
        scan(ippe, distances, n).outcome is Linked <==> forall|k: int|
            0 <= k < n ==> (#[trigger] distances[k] matches Some(d) && chosen(d) is Some),
        0 <= i < n && (forall|k: int|
            0 <= k < i ==> (#[trigger] distances[k] matches Some(d) && chosen(d) is Some)) ==> {
            &&& distances[i] is None ==> scan(ippe, distances, n).outcome is Unlinked
            &&& distances[i] matches Some(d) ==> (chosen(d) is None ==> scan(
                ippe,
                distances,
                n,
            ).outcome is Ambiguous)
        },
    decreases n,
{
    if n > 0 {
        law_scan_outcome(ippe, distances, (n - 1) as nat, i);
    }
}

/// In a linked sample every base station has one of its two possible poses: each but the first
/// the one of the combination that fits, and the first the one that fits to the last.
pub proof fn law_scan_poses(
    ippe: Seq<(u8, BsPairPoses)>,
    distances: Seq<Option<[u64; 4]>>,
    n: nat,
    i: int,
)
    requires
        n < ippe.len(),
        n <= distances.len(),
        station_map::ascending(ippe),
        scan(ippe, distances, n).outcome is Linked,
    ensures
        station_map::ascending(scan(ippe, distances, n).poses),
        1 <= i <= n ==> {
            let k = chosen(distances[i - 1]->0)->0;
            station_map::value_of(scan(ippe, distances, n).poses, ippe[i].0) == Some(
                if k == 1 || k == 3 {
                    ippe[i].1.1
                } else {
                    ippe[i].1.0
                },
            )
        },
        n > 0 ==> {
            let k = chosen(distances[n - 1]->0)->0;
            station_map::value_of(scan(ippe, distances, n).poses, ippe[0].0) == Some(
                if k == 2 || k == 3 {
                    ippe[0].1.1
                } else {
                    ippe[0].1.0
                },
            )
        },
    decreases n,
{
    if n > 0 {
        let m = (n - 1) as nat;
        let before = scan(ippe, distances, m);
        law_scan_poses(ippe, distances, m, i);
        let d = distances[n - 1]->0;
        law_choice(d, 0);
        let k = chosen(d)->0;
        let first = station_map::inserted(before.poses, ippe[0].0, possible(ippe[0].1, k >= 2));
        station_map::law_inserted(before.poses, ippe[0].0, possible(ippe[0].1, k >= 2));
        station_map::law_inserted(first, ippe[n as int].0, possible(ippe[n as int].1, k % 2 == 1));
        assert(ippe[0].0 < ippe[n as int].0);
        if 1 <= i <= n {
            assert(ippe[0].0 < ippe[i].0);
            if i < n {
                assert(ippe[i].0 < ippe[n as int].0);
            }
        }
    }
}

/// How the base stations of a sample fit together.
pub open spec fn outcome_of(s: WrapperView, distances: Seq<Option<[u64; 4]>>) -> ScanOutcome {
    scan(s.sample.ippe, distances, (s.sample.ippe.len() - 1) as nat).outcome
}

/// A sample is kept if it has possible poses and is linked or can not be left out, and only then.
/// It is marked if it is ambiguous, and keeps its state otherwise. The estimation goes on unless a
/// sample that can not be left out is ambiguous.
pub proof fn law_selection(
    samples: Seq<WrapperView>,
    distances: Seq<Seq<Option<[u64; 4]>>>,
    progress_is_ok: bool,
    info: Seq<char>,
    n: nat,
    i: int,
)
    requires
        n <= samples.len(),
    ensures
        ({
            let s = selection(samples, distances, progress_is_ok, info, n);
            let seen = samples[i].sample.ippe.len() > 0;
            &&& s.kept.contains(i) <==> 0 <= i < n && seen && (outcome_of(samples[i], distances[i])
                is Linked || samples[i].is_mandatory)
            &&& s.statuses.len() == n
            &&& 0 <= i < n && seen && outcome_of(samples[i], distances[i]) is Ambiguous
                ==> s.statuses[i] is Ambiguous
            &&& 0 <= i < n && !(seen && outcome_of(samples[i], distances[i]) is Ambiguous)
                ==> s.statuses[i] == samples[i].status
            &&& s.progress_is_ok <==> progress_is_ok && forall|k: int|
                0 <= k < n ==> !((#[trigger] samples[k]).sample.ippe.len() > 0
                    && samples[k].is_mandatory && outcome_of(samples[k], distances[k]) is Ambiguous)
        }),
    decreases n,
{
    if n > 0 {
        let m = (n - 1) as nat;
        law_selection(samples, distances, progress_is_ok, info, m, i);
        let before = selection(samples, distances, progress_is_ok, info, m);
        let s = selection(samples, distances, progress_is_ok, info, n);
        if before.kept.contains(i) {
            let k = before.kept.index_of(i);
            assert(s.kept[k] == i);
        }
        if s.kept.contains(i) {
            let k = s.kept.index_of(i);
            if k < before.kept.len() {
                assert(before.kept[k] == i);
            }
        }
        if i == m && s.kept.len() > before.kept.len() {
            assert(s.kept[before.kept.len() as int] == i);
        }
    }
}

/// The poses of a kept sample are those that were found in it.
pub proof fn law_selected_poses(
    samples: Seq<WrapperView>,
    distances: Seq<Seq<Option<[u64; 4]>>>,
    progress_is_ok: bool,
    info: Seq<char>,
    n: nat,
    j: int,
)
    requires
        n <= samples.len(),
        0 <= j < selection(samples, distances, progress_is_ok, info, n).kept.len(),
    ensures
        ({
            let s = selection(samples, distances, progress_is_ok, info, n);
            let k = s.kept[j];
            &&& s.poses.len() == s.kept.len()
            &&& s.poses[j] == scan(
                samples[k].sample.ippe,
                distances[k],
                (samples[k].sample.ippe.len() - 1) as nat,
            ).poses
        }),
    decreases n,
{
    lemma_selection_kept(samples, distances, progress_is_ok, info, n);
    if n > 0 {
        let m = (n - 1) as nat;
        let before = selection(samples, distances, progress_is_ok, info, m);
        lemma_selection_kept(samples, distances, progress_is_ok, info, m);
        if j < before.kept.len() {
            law_selected_poses(samples, distances, progress_is_ok, info, m, j);
        }
    }
}

/// The skipped samples are the ambiguous ones that can be left out; their number is reported, and
/// without any the report stays as it was.
pub proof fn law_skipped(
    samples: Seq<WrapperView>,
    distances: Seq<Seq<Option<[u64; 4]>>>,
    progress_is_ok: bool,
    info: Seq<char>,
    n: nat,
)
    requires
        n < samples.len(),
    ensures
        ({
            let before = selection(samples, distances, progress_is_ok, info, n);
            let s = selection(samples, distances, progress_is_ok, info, n + 1);
            let w = samples[n as int];
            let skips = w.sample.ippe.len() > 0 && !w.is_mandatory && outcome_of(
                w,
                distances[n as int],
            ) is Ambiguous;
            &&& s.skipped == before.skipped + (if skips {
                1int
            } else {
                0
            })
            &&& skips ==> s.info == text::decimal(s.skipped)
                + " sample(s) with ambiguities skipped"@
            &&& !skips ==> s.info == before.info
            &&& selection(samples, distances, progress_is_ok, info, 0).skipped == 0
            &&& selection(samples, distances, progress_is_ok, info, 0).info == info
        }),
{
}

/// The largest of four numbers is not below any of them, and above those before it.
pub proof fn law_largest(values: [u64; 4], k: int)
    requires
        0 <= k < 4,
        forall|i: int| 0 <= i < 4 ==> float_bits::double_key(#[trigger] values[i]) is Some,
    ensures
        0 <= largest(values, 4) < 4,
        !float_bits::double_less(values[largest(values, 4)], values[k]),
        k < largest(values, 4) ==> float_bits::double_less(values[k], values[largest(values, 4)]),
{
    reveal_with_fuel(largest, 5);
    assert(float_bits::double_key(values[0]) is Some);
    assert(float_bits::double_key(values[1]) is Some);
    assert(float_bits::double_key(values[2]) is Some);
    assert(float_bits::double_key(values[3]) is Some);
    assert(k == 0 || k == 1 || k == 2 || k == 3);
}

/// Each kept sample gets the pose of its own place in the list; a sample that is not kept, and all
/// else of the samples, stays as it was.
pub proof fn law_cf_poses_given(
    samples: Seq<WrapperView>,
    kept: Seq<usize>,
    poses: Seq<Pose>,
    n: nat,
    i: int,
)
    requires
        n <= kept.len(),
        n <= poses.len(),
        forall|j: int| 0 <= j < kept.len() ==> (#[trigger] kept[j]) < samples.len(),
        forall|j: int, k: int| 0 <= j < k < kept.len() ==> #[trigger] kept[j] != #[trigger] kept[k],
        0 <= i < samples.len(),
    ensures
        with_cf_poses(samples, kept, poses, n).len() == samples.len(),
        with_cf_poses(samples, kept, poses, n)[i] == (WrapperView {
            pose: with_cf_poses(samples, kept, poses, n)[i].pose,
            ..samples[i]
        }),
        forall|j: int|
            0 <= j < n && #[trigger] kept[j] == i ==> with_cf_poses(samples, kept, poses, n)[i].pose
                == Some(poses[j]),
        (forall|j: int| 0 <= j < n ==> #[trigger] kept[j] != i) ==> with_cf_poses(
            samples,
            kept,
            poses,
            n,
        )[i] == samples[i],
    decreases n,
{
    if n > 0 {
        law_cf_poses_given(samples, kept, poses, (n - 1) as nat, i);
        assert(kept[n - 1] < samples.len());
    }
}

} // verus!
