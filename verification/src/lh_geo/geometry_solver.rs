//! The least squares problem that refines the geometry: which measured angle belongs to which
//! base station, sample and sensor, and where the parameters of each pose stand.

use crate::lh_geo::bs_vector;
use crate::lh_geo::bs_vector::LighthouseBsVectors;
use crate::lh_geo::sample;
use crate::lh_geo::sample::{LhCfPoseSampleWrapper, WrapperView};
use crate::lh_geo::solution::{LighthouseGeometrySolution, SolutionView};
use crate::lh_geo::station_map;
use crate::lh_geo::station_map::StationMap;
use crate::lh_geo::types;
use crate::lh_geo::types::Pose;
use vstd::prelude::*;

verus! {

/// The parameters of a pose: a rotation vector and a translation.
pub const LEN_POSE: usize = 6;

/// The sensors of a sample.
pub const N_SENSORS: usize = 4;

/// Two measured angles: which base station, by its place, which sample and which sensor.
#[derive(Debug, Clone, Copy, PartialEq, Eq, Structural)]
pub struct AnglePair {
    pub bs: usize,
    pub cf: usize,
    pub sensor: usize,
}

/// Refines a geometry.
pub struct LighthouseGeometrySolver;

/// The place of a base station among all.
pub open spec fn bs_place(bs_poses: Seq<(u8, Pose)>, id: u8) -> int {
    choose|i: int| 0 <= i < bs_poses.len() && (#[trigger] bs_poses[i]).0 == id
}

/// The angle pairs of one sample: base stations ascending, and the sensors of each in turn.
pub open spec fn sample_pairs(
    angles: Seq<(u8, LighthouseBsVectors)>,
    bs_poses: Seq<(u8, Pose)>,
    cf: int,
) -> Seq<AnglePair> {
    Seq::new(
        4 * angles.len(),
        |k: int|
            AnglePair {
                bs: bs_place(bs_poses, angles[k / 4].0) as usize,
                cf: cf as usize,
                sensor: (k % 4) as usize,
            },
    )
}

/// The angle pairs of the first `n` samples.
pub open spec fn all_pairs(
    samples: Seq<WrapperView>,
    bs_poses: Seq<(u8, Pose)>,
    n: nat,
) -> Seq<AnglePair>
    decreases n,
{
    if n == 0 {
        Seq::empty()
    } else {
        all_pairs(samples, bs_poses, (n - 1) as nat) + sample_pairs(
            samples[n - 1].sample.angles,
            bs_poses,
            n - 1,
        )
    }
}

/// The measured angles of one sample: base stations ascending, the horizontal and the vertical
/// angle of each sensor in turn.
pub open spec fn sample_targets(angles: Seq<(u8, LighthouseBsVectors)>) -> Seq<u64> {
    Seq::new(
        8 * angles.len(),
        |k: int| bs_vector::flat_angles(angles[k / 8].1@)[k % 8],
    )
}

/// The measured angles of the first `n` samples.
pub open spec fn all_targets(samples: Seq<WrapperView>, n: nat) -> Seq<u64>
    decreases n,
{
    if n == 0 {
        Seq::empty()
    } else {
        all_targets(samples, (n - 1) as nat) + sample_targets(samples[n - 1].sample.angles)
    }
}

/// Every base station in sight in a sample has a pose.
pub open spec fn stations_known(samples: Seq<WrapperView>, bs_poses: Seq<(u8, Pose)>) -> bool {
    forall|s: int, k: int|
        0 <= s < samples.len() && 0 <= k < samples[s].sample.angles.len() ==> station_map::holds(
            bs_poses,
            (#[trigger] samples[s].sample.angles[k]).0,
        )
}

/// Entry `k` of a sample holds what a sensor measured from a base station.
pub open spec fn measured_by(
    angles: Seq<(u8, LighthouseBsVectors)>,
    k: int,
    id: u8,
    sensor: int,
    horiz: u64,
    vert: u64,
) -> bool {
    &&& 0 <= k < angles.len()
    &&& angles[k].0 == id
    &&& angles[k].1[sensor].lh_v1_horiz_angle == horiz
    &&& angles[k].1[sensor].lh_v1_vert_angle == vert
}

/// The measured angles stand in the order of the angle pairs: two for each, and they are those
/// that the sensor measured in that sample from that base station.
pub proof fn law_targets_match_pairs(
    samples: Seq<WrapperView>,
    bs_poses: Seq<(u8, Pose)>,
    n: nat,
    p: int,
)
    requires
        n <= samples.len(),
        samples.len() <= usize::MAX,
        bs_poses.len() <= usize::MAX,
        stations_known(samples, bs_poses),
        0 <= p < all_pairs(samples, bs_poses, n).len(),
    ensures
        all_targets(samples, n).len() == 2 * all_pairs(samples, bs_poses, n).len(),
        ({
            let pair = all_pairs(samples, bs_poses, n)[p];
            &&& pair.bs < bs_poses.len()
            &&& pair.cf < n
            &&& pair.sensor < 4
            &&& exists|k: int| #[trigger]
                measured_by(
                    samples[pair.cf as int].sample.angles,
                    k,
                    bs_poses[pair.bs as int].0,
                    pair.sensor as int,
                    all_targets(samples, n)[2 * p],
                    all_targets(samples, n)[2 * p + 1],
                )
        }),
    decreases n,
{
    lemma_sizes(samples, bs_poses, n);
    if n > 0 {
        let before = all_pairs(samples, bs_poses, (n - 1) as nat);
        let angles = samples[n - 1].sample.angles;
        lemma_sizes(samples, bs_poses, (n - 1) as nat);
        if p < before.len() {
            law_targets_match_pairs(samples, bs_poses, (n - 1) as nat, p);
            let pair = before[p];
            assert(all_pairs(samples, bs_poses, n)[p] == pair);
            assert(all_targets(samples, n)[2 * p] == all_targets(samples, (n - 1) as nat)[2 * p]);
            assert(all_targets(samples, n)[2 * p + 1] == all_targets(samples, (n - 1) as nat)[2 * p
                + 1]);
            let k = choose|k: int| #[trigger]
                measured_by(
                    samples[pair.cf as int].sample.angles,
                    k,
                    bs_poses[pair.bs as int].0,
                    pair.sensor as int,
                    all_targets(samples, (n - 1) as nat)[2 * p],
                    all_targets(samples, (n - 1) as nat)[2 * p + 1],
                );
            assert(measured_by(
                samples[pair.cf as int].sample.angles,
                k,
                bs_poses[pair.bs as int].0,
                pair.sensor as int,
                all_targets(samples, n)[2 * p],
                all_targets(samples, n)[2 * p + 1],
            ));
        } else {
            let q = p - before.len();
            let part = sample_pairs(angles, bs_poses, n - 1);
            assert(part.len() == 4 * angles.len());
            assert(all_pairs(samples, bs_poses, n)[p] == part[q]);
            let k = q / 4;
            let sensor = q % 4;
            assert(0 <= k < angles.len());
            assert(station_map::holds(bs_poses, samples[n - 1].sample.angles[k].0));
            let place = bs_place(bs_poses, angles[k].0);
            assert(bs_poses[place].0 == angles[k].0);
            let targets = sample_targets(angles);
            assert(all_targets(samples, n)[2 * p] == targets[2 * q]);
            assert(all_targets(samples, n)[2 * p + 1] == targets[2 * q + 1]);
            assert((2 * q) / 8 == k && (2 * q + 1) / 8 == k);
            assert((2 * q) % 8 == 2 * sensor && (2 * q + 1) % 8 == 2 * sensor + 1);
            assert(targets[2 * q] == angles[k].1[sensor].lh_v1_horiz_angle);
            assert(targets[2 * q + 1] == angles[k].1[sensor].lh_v1_vert_angle);
            let pair = part[q];
            assert(pair.bs == place && pair.cf == n - 1 && pair.sensor == sensor);
            assert(measured_by(
                samples[pair.cf as int].sample.angles,
                k,
                bs_poses[pair.bs as int].0,
                pair.sensor as int,
                all_targets(samples, n)[2 * p],
                all_targets(samples, n)[2 * p + 1],
            ));
        }
    }
}

proof fn lemma_sizes(samples: Seq<WrapperView>, bs_poses: Seq<(u8, Pose)>, n: nat)
    ensures
        all_targets(samples, n).len() == 2 * all_pairs(samples, bs_poses, n).len(),
    decreases n,
{
    if n > 0 {
        lemma_sizes(samples, bs_poses, (n - 1) as nat);
    }
}

/// The index of each base station and the base station of each index.
fn create_bs_map(bs_poses: &StationMap<Pose>) -> (maps: (StationMap<usize>, Vec<u8>))
    ensures
        maps.1@ == station_map::ids_of(bs_poses@),
        forall|id: u8| #[trigger]
            station_map::holds(bs_poses@, id) ==> station_map::value_of(maps.0@, id) == Some(
                bs_place(bs_poses@, id) as usize,
            ),
        forall|id: u8| #[trigger]
            station_map::holds(maps.0@, id) <==> station_map::holds(bs_poses@, id),
{
    let index_to_id = bs_poses.ids();
    let ghost entries = bs_poses@;
    let mut id_to_index: StationMap<usize> = StationMap::new();
    let mut i: usize = 0;
    while i < index_to_id.len()
        invariant
            i <= index_to_id@.len(),
            entries == bs_poses@,
            index_to_id@ == station_map::ids_of(entries),
            station_map::ascending(entries),
            station_map::ascending(id_to_index@),
            forall|k: int|
                0 <= k < i ==> station_map::value_of(id_to_index@, (#[trigger] entries[k]).0)
                    == Some(k as usize),
            forall|id: u8| #[trigger]
                station_map::holds(id_to_index@, id) <==> exists|k: int|
                    0 <= k < i && (#[trigger] entries[k]).0 == id,
        decreases index_to_id.len() - i,
    {
        let ghost at = id_to_index@;
        let id: u8 = index_to_id[i];
        id_to_index.insert(id, i);
        proof {
            station_map::law_inserted(at, id, i);
            assert(entries[i as int].0 == id);
            assert forall|k: int| 0 <= k < i + 1 implies station_map::value_of(
                id_to_index@,
                (#[trigger] entries[k]).0,
            ) == Some(k as usize) by {
                if k < i {
                    assert(entries[k].0 < entries[i as int].0);
                }
            }
            assert forall|x: u8| #[trigger] station_map::holds(id_to_index@, x) <==> exists|k: int|
                0 <= k < i + 1 && (#[trigger] entries[k]).0 == x by {
                assert(station_map::holds(at, x) <==> exists|k: int|
                    0 <= k < i && (#[trigger] entries[k]).0 == x);
                if x != id {
                    assert(station_map::value_of(id_to_index@, x) == station_map::value_of(at, x));
                } else {
                    assert(station_map::value_of(id_to_index@, x) is Some);
                }
            }
        }
        i = i + 1;
    }
    proof {
        assert forall|id: u8| #[trigger] station_map::holds(
            bs_poses@,
            id,
        ) implies station_map::value_of(id_to_index@, id) == Some(
            bs_place(bs_poses@, id) as usize,
        ) by {
            let k = bs_place(entries, id);
            assert(entries[k].0 == id);
        }
    }
    (id_to_index, index_to_id)
}

/// The problem as it is handed to the optimiser.
pub struct SolverLayout {
    /// The base station of each index.
    pub bs_ids: Vec<u8>,
    /// The angle pairs, in order.
    pub pairs: Vec<AnglePair>,
    /// The measured angles, two for each pair.
    pub target_angles: Vec<u64>,
    /// The poses that the optimisation starts from: those of the base stations, and those of
    /// all samples but the first.
    pub bs_poses: Vec<Pose>,
    pub cf_poses: Vec<Pose>,
}

fn push_sample_pairs(
    sample: &LhCfPoseSampleWrapper,
    cf: usize,
    index: &StationMap<usize>,
    Ghost(bs_poses): Ghost<Seq<(u8, Pose)>>,
    pairs: &mut Vec<AnglePair>,
    targets: &mut Vec<u64>,
)
    requires
        forall|k: int|
            0 <= k < sample@.sample.angles.len() ==> station_map::holds(
                bs_poses,
                (#[trigger] sample@.sample.angles[k]).0,
            ),
        forall|id: u8| #[trigger]
            station_map::holds(bs_poses, id) ==> station_map::value_of(index@, id) == Some(
                bs_place(bs_poses, id) as usize,
            ),
    ensures
        final(pairs)@ == old(pairs)@ + sample_pairs(sample@.sample.angles, bs_poses, cf as int),
        final(targets)@ == old(targets)@ + sample_targets(sample@.sample.angles),
{
    let map = &sample.pose_sample.angles_calibrated;
    let ghost angles = sample@.sample.angles;
    let ghost part = sample_pairs(angles, bs_poses, cf as int);
    let ghost measured = sample_targets(angles);
    let ghost pairs_before = pairs@;
    let ghost targets_before = targets@;
    let mut j: usize = 0;
    assert(pairs@ =~= pairs_before + part.take(0));
    assert(targets@ =~= targets_before + measured.take(0));
    while j < map.len()
        invariant
            j <= angles.len(),
            map@ == angles,
            part == sample_pairs(angles, bs_poses, cf as int),
            measured == sample_targets(angles),
            pairs@ == pairs_before + part.take(4 * j),
            targets@ == targets_before + measured.take(8 * j),
            forall|k: int|
                0 <= k < angles.len() ==> station_map::holds(
                    bs_poses,
                    (#[trigger] angles[k]).0,
                ),
            forall|id: u8| #[trigger]
                station_map::holds(bs_poses, id) ==> station_map::value_of(index@, id) == Some(
                    bs_place(bs_poses, id) as usize,
                ),
        decreases angles.len() - j,
    {
        let entry = map.entry(j);
        assert(angles[j as int] == *entry);
        assert(station_map::holds(bs_poses, entry.0));
        let bs: usize = match index.get(entry.0) {
            Some(place) => *place,
            None => 0,
        };
        assert(bs == bs_place(bs_poses, angles[j as int].0) as usize);
        pairs.push(AnglePair { bs, cf, sensor: 0 });
        pairs.push(AnglePair { bs, cf, sensor: 1 });
        pairs.push(AnglePair { bs, cf, sensor: 2 });
        pairs.push(AnglePair { bs, cf, sensor: 3 });
        assert(pairs@ =~= pairs_before + part.take(4 * (j + 1)));
        let flat = bs_vector::angle_list(&entry.1);
        let mut t: usize = 0;
        assert(targets@ =~= targets_before + measured.take(8 * j + 0));
        while t < 8
            invariant
                t <= 8,
                j < angles.len(),
                measured == sample_targets(angles),
                flat@ == bs_vector::flat_angles(angles[j as int].1@),
                targets@ == targets_before + measured.take(8 * j + t),
            decreases 8 - t,
        {
            targets.push(flat[t]);
            assert(measured[8 * j + t] == flat@[t as int]) by {
                assert((8 * j + t) / 8 == j);
                assert((8 * j + t) % 8 == t);
            }
            assert(targets@ =~= targets_before + measured.take(8 * j + t + 1));
            t = t + 1;
        }
        j = j + 1;
    }
    assert(part.take(part.len() as int) =~= part);
    assert(measured.take(measured.len() as int) =~= measured);
}

/// The poses of all samples but the first; one that is not known yet counts as no rotation at
/// the origin.
pub open spec fn starting_poses(samples: Seq<WrapperView>) -> Seq<Pose> {
    Seq::new(
        (samples.len() - 1) as nat,
        |i: int|
            match samples[i + 1].pose {
                Some(pose) => pose,
                None => types::identity_pose(),
            },
    )
}

impl LighthouseGeometrySolver {
    /// Sets up the problem. The pose of the first sample defines the frame and is no parameter.
    pub fn prepare(
        matched_samples: &Vec<LhCfPoseSampleWrapper>,
        bs_poses: &StationMap<Pose>,
    ) -> (layout: SolverLayout)
        requires
            matched_samples@.len() > 0,
            stations_known(sample::wrapper_views(matched_samples@), bs_poses@),
        ensures
            ({
                let views = sample::wrapper_views(matched_samples@);
                &&& layout.bs_ids@ == station_map::ids_of(bs_poses@)
                &&& layout.pairs@ == all_pairs(views, bs_poses@, views.len())
                &&& layout.target_angles@ == all_targets(views, views.len())
                &&& layout.bs_poses@ == Seq::new(bs_poses@.len(), |i: int| bs_poses@[i].1)
                &&& layout.cf_poses@ == starting_poses(views)
            }),
    {
        let ghost views = sample::wrapper_views(matched_samples@);
        let (index, bs_ids) = create_bs_map(bs_poses);
        let mut pairs: Vec<AnglePair> = Vec::new();
        let mut target_angles: Vec<u64> = Vec::new();
        let mut cf: usize = 0;
        while cf < matched_samples.len()
            invariant
                cf <= matched_samples@.len(),
                views == sample::wrapper_views(matched_samples@),
                stations_known(views, bs_poses@),
                forall|id: u8| #[trigger]
                    station_map::holds(bs_poses@, id) ==> station_map::value_of(index@, id) == Some(
                        bs_place(bs_poses@, id) as usize,
                    ),
                pairs@ == all_pairs(views, bs_poses@, cf as nat),
                target_angles@ == all_targets(views, cf as nat),
            decreases matched_samples.len() - cf,
        {
            assert(views[cf as int] == matched_samples@[cf as int]@);
            assert forall|k: int|
                0 <= k < matched_samples@[cf as int]@.sample.angles.len() implies station_map::holds(
                bs_poses@,
                (#[trigger] matched_samples@[cf as int]@.sample.angles[k]).0,
            ) by {
                assert(station_map::holds(bs_poses@, views[cf as int].sample.angles[k].0));
            }
            push_sample_pairs(
                &matched_samples[cf],
                cf,
                &index,
                Ghost(bs_poses@),
                &mut pairs,
                &mut target_angles,
            );
            cf = cf + 1;
        }
        let mut start_bs: Vec<Pose> = Vec::new();
        let mut b: usize = 0;
        while b < bs_poses.len()
            invariant
                b <= bs_poses@.len(),
                start_bs@ == Seq::new(b as nat, |i: int| bs_poses@[i].1),
            decreases bs_poses@.len() - b,
        {
            start_bs.push(bs_poses.entry(b).1);
            b = b + 1;
            assert(start_bs@ =~= Seq::new(b as nat, |i: int| bs_poses@[i].1));
        }
        let mut start_cf: Vec<Pose> = Vec::new();
        let mut c: usize = 1;
        assert(start_cf@ =~= starting_poses(views).take(0));
        while c < matched_samples.len()
            invariant
                1 <= c <= matched_samples@.len(),
                views == sample::wrapper_views(matched_samples@),
                start_cf@ == starting_poses(views).take(c - 1),
            decreases matched_samples.len() - c,
        {
            let pose = match matched_samples[c].pose() {
                Some(pose) => pose,
                None => Pose::default(),
            };
            start_cf.push(pose);
            assert(start_cf@ =~= starting_poses(views).take(c as int));
            c = c + 1;
        }
        assert(starting_poses(views).take(views.len() - 1) =~= starting_poses(views));
        SolverLayout { bs_ids, pairs, target_angles, bs_poses: start_bs, cf_poses: start_cf }
    }

    /// Takes over the refined poses. The first sample is at the origin.
    pub fn solve(
        matched_samples: &mut Vec<LhCfPoseSampleWrapper>,
        layout: &SolverLayout,
        bs_poses: &Vec<Pose>,
        cf_poses: &Vec<Pose>,
        converged: bool,
        solution: &mut LighthouseGeometrySolution,
    )
        requires
            old(matched_samples)@.len() > 0,
            cf_poses@.len() == old(matched_samples)@.len() - 1,
            bs_poses@.len() == layout.bs_ids@.len(),
            forall|i: int, j: int|
                0 <= i < j < layout.bs_ids@.len() ==> #[trigger] layout.bs_ids@[i]
                    < #[trigger] layout.bs_ids@[j],
        ensures
            sample::wrapper_views(final(matched_samples)@) == refined(
                sample::wrapper_views(old(matched_samples)@),
                cf_poses@,
            ),
            final(solution)@ == (SolutionView {
                bs_poses: Seq::new(
                    bs_poses@.len(),
                    |i: int| (layout.bs_ids@[i], bs_poses@[i]),
                ),
                has_converged: converged,
                ..old(solution)@
            }),
    {
        let ghost before = sample::wrapper_views(matched_samples@);
        let ghost list = matched_samples@;
        let first = &mut matched_samples[0];
        first.set_pose(Pose::default());
        let n: usize = matched_samples.len();
        let mut i: usize = 1;
        while i < n
            invariant
                1 <= i <= n,
                n == matched_samples@.len(),
                n == list.len(),
                before == sample::wrapper_views(list),
                cf_poses@.len() == n - 1,
                forall|k: int|
                    0 <= k < i ==> (#[trigger] matched_samples@[k])@ == refined(before, cf_poses@)[k],
                forall|k: int| i <= k < n ==> #[trigger] matched_samples@[k] == list[k],
            decreases n - i,
        {
            let ghost at = matched_samples@;
            assert(matched_samples@[i as int] == list[i as int]);
            assert(before[i as int] == list[i as int]@);
            let sample = &mut matched_samples[i];
            sample.set_pose(cf_poses[i - 1]);
            assert forall|k: int| 0 <= k < i + 1 implies (#[trigger] matched_samples@[k])@
                == refined(before, cf_poses@)[k] by {
                if k < i {
                    assert(matched_samples@[k] == at[k]);
                }
            }
            i = i + 1;
        }
        assert(sample::wrapper_views(matched_samples@) =~= refined(before, cf_poses@));
        let mut map: StationMap<Pose> = StationMap::new();
        let ghost entries = Seq::new(bs_poses@.len(), |i: int| (layout.bs_ids@[i], bs_poses@[i]));
        let mut b: usize = 0;
        assert(map@ =~= entries.take(0));
        while b < bs_poses.len()
            invariant
                b <= bs_poses@.len(),
                bs_poses@.len() == layout.bs_ids@.len(),
                entries == Seq::new(
                    bs_poses@.len(),
                    |i: int| (layout.bs_ids@[i], bs_poses@[i]),
                ),
                map@ == entries.take(b as int),
                forall|i: int, j: int|
                    0 <= i < j < layout.bs_ids@.len() ==> #[trigger] layout.bs_ids@[i]
                        < #[trigger] layout.bs_ids@[j],
            decreases bs_poses.len() - b,
        {
            proof {
                if b > 0 {
                    assert(entries.take(b as int).last() == entries[b - 1]);
                    assert(layout.bs_ids@[b - 1] < layout.bs_ids@[b as int]);
                }
            }
            map.insert(layout.bs_ids[b], bs_poses[b]);
            assert(map@ =~= entries.take(b + 1));
            b = b + 1;
        }
        assert(entries.take(entries.len() as int) =~= entries);
        solution.bs_poses = map;
        solution.has_converged = converged;
    }
}

/// The samples with their refined poses.
pub open spec fn refined(samples: Seq<WrapperView>, cf_poses: Seq<Pose>) -> Seq<WrapperView> {
    Seq::new(
        samples.len(),
        |i: int|
            WrapperView {
                pose: Some(
                    if i == 0 {
                        types::identity_pose()
                    } else {
                        cf_poses[i - 1]
                    },
                ),
                ..samples[i]
            },
    )
}

// ---------------------------------------------------------------------------
// Parameters
// ---------------------------------------------------------------------------

/// The parameters of several poses as one list.
pub open spec fn flat(poses: Seq<[u64; 6]>) -> Seq<u64> {
    Seq::new(6 * poses.len(), |i: int| poses[i / 6][i % 6])
}

/// The list of all parameters: those of the base stations, and those of all samples but the
/// first.
pub fn struct_to_params(bss: &Vec<[u64; 6]>, cfs: &Vec<[u64; 6]>) -> (params: Vec<u64>)
    ensures
        params@ == flat(bss@) + flat(cfs@),
{
    let mut params: Vec<u64> = Vec::new();
    assert(params@ =~= Seq::<u64>::empty() + flat(bss@).take(0));
    push_poses(bss, &mut params);
    push_poses(cfs, &mut params);
    assert(params@ =~= flat(bss@) + flat(cfs@));
    params
}

fn push_poses(poses: &Vec<[u64; 6]>, params: &mut Vec<u64>)
    ensures
        final(params)@ == old(params)@ + flat(poses@),
{
    let ghost before = params@;
    let ghost all = flat(poses@);
    let mut i: usize = 0;
    assert(params@ =~= before + all.take(0));
    while i < poses.len()
        invariant
            i <= poses@.len(),
            all == flat(poses@),
            params@ == before + all.take(6 * i),
        decreases poses.len() - i,
    {
        let p = poses[i];
        params.push(p[0]);
        params.push(p[1]);
        params.push(p[2]);
        params.push(p[3]);
        params.push(p[4]);
        params.push(p[5]);
        assert(params@ =~= before + all.take(6 * (i + 1)));
        i = i + 1;
    }
    assert(all.take(all.len() as int) =~= all);
}

fn read_poses(params: &Vec<u64>, from: usize, n: usize) -> (poses: Vec<[u64; 6]>)
    requires
        from + 6 * n <= params@.len(),
    ensures
        poses@.len() == n,
        flat(poses@) == params@.subrange(from as int, from + 6 * n),
{
    let total: usize = params.len();
    let mut poses: Vec<[u64; 6]> = Vec::new();
    let mut i: usize = 0;
    while i < n
        invariant
            i <= n,
            total == params@.len(),
            from + 6 * n <= total,
            poses@.len() == i,
            forall|k: int, j: int|
                0 <= k < i && 0 <= j < 6 ==> #[trigger] poses@[k][j] == params@[from + 6 * k + j],
        decreases n - i,
    {
        let start: usize = from + i * 6;
        let pose = [
            params[start],
            params[start + 1],
            params[start + 2],
            params[start + 3],
            params[start + 4],
            params[start + 5],
        ];
        assert forall|j: int| 0 <= j < 6 implies #[trigger] pose[j] == params@[start + j] by {
            assert(j == 0 || j == 1 || j == 2 || j == 3 || j == 4 || j == 5);
        }
        poses.push(pose);
        i = i + 1;
    }
    assert forall|m: int| 0 <= m < 6 * n implies #[trigger] flat(poses@)[m] == params@.subrange(
        from as int,
        from + 6 * n,
    )[m] by {
        assert(poses@[m / 6][m % 6] == params@[from + 6 * (m / 6) + m % 6]);
    }
    assert(flat(poses@) =~= params@.subrange(from as int, from + 6 * n));
    poses
}

/// Splits the list of all parameters into those of each base station and of each sample.
pub fn params_to_struct(params: &Vec<u64>, n_bss: usize, n_cfs_in_params: usize) -> (parts: (
    Vec<[u64; 6]>,
    Vec<[u64; 6]>,
))
    requires
        6 * n_bss + 6 * n_cfs_in_params == params@.len(),
    ensures
        parts.0@.len() == n_bss,
        parts.1@.len() == n_cfs_in_params,
        flat(parts.0@) + flat(parts.1@) == params@,
{
    let total: usize = params.len();
    assert(6 * n_bss <= total);
    let bss = read_poses(params, 0, n_bss);
    let cfs = read_poses(params, n_bss * 6, n_cfs_in_params);
    assert(flat(bss@) + flat(cfs@) =~= params@);
    (bss, cfs)
}

/// Lists of poses are told apart by their parameters: splitting what was put together gives the
/// same poses.
pub proof fn law_params_round_trip(
    bss: Seq<[u64; 6]>,
    cfs: Seq<[u64; 6]>,
    bss_back: Seq<[u64; 6]>,
    cfs_back: Seq<[u64; 6]>,
)
    requires
        bss.len() == bss_back.len(),
        flat(bss) + flat(cfs) == flat(bss_back) + flat(cfs_back),
    ensures
        bss == bss_back,
        cfs == cfs_back,
{
    let all = flat(bss) + flat(cfs);
    assert(flat(bss) =~= all.subrange(0, 6 * bss.len() as int));
    assert(flat(bss_back) =~= all.subrange(0, 6 * bss.len() as int));
    assert(flat(cfs) =~= all.subrange(6 * bss.len() as int, all.len() as int));
    assert(flat(cfs_back) =~= all.subrange(6 * bss.len() as int, all.len() as int));
    lemma_flat_equal(bss, bss_back);
    lemma_flat_equal(cfs, cfs_back);
}

proof fn lemma_flat_equal(a: Seq<[u64; 6]>, b: Seq<[u64; 6]>)
    requires
        flat(a) == flat(b),
    ensures
        a == b,
{
    assert(flat(a).len() == 6 * a.len());
    assert(flat(b).len() == 6 * b.len());
    assert(a.len() == b.len());
    assert forall|i: int| 0 <= i < a.len() implies a[i] == b[i] by {
        assert forall|j: int| 0 <= j < 6 implies #[trigger] a[i][j] == b[i][j] by {
            let m = 6 * i + j;
            assert(0 <= m < 6 * a.len());
            assert(m / 6 == i && m % 6 == j);
            assert(flat(a)[m] == a[m / 6][m % 6]);
            assert(flat(b)[m] == b[m / 6][m % 6]);
        }
        assert(a[i]@ =~= b[i]@);
    }
    assert(a =~= b);
}

/// The pose that owns a parameter, counting base stations and then samples but the first.
pub open spec fn owner(p: int) -> int {
    p / 6
}

/// A parameter changes an angle pair: it belongs to the base station of the pair, or to its
/// sample. The first sample has no parameters.
pub open spec fn changes(pair: AnglePair, n_bss: int, p: int) -> bool {
    owner(p) == pair.bs || (pair.cf > 0 && owner(p) == n_bss + pair.cf - 1)
}

/// Whether a parameter changes an angle pair.
pub fn affects(pair: &AnglePair, n_bss: usize, p: usize) -> (r: bool)
    requires
        pair.bs < n_bss,
        6 * (n_bss + pair.cf) <= usize::MAX,
    ensures
        r == changes(*pair, n_bss as int, p as int),
{
    let bs_start: usize = pair.bs * LEN_POSE;
    let in_bs_block: bool = p >= bs_start && p < bs_start + LEN_POSE;
    let in_cf_block: bool = if pair.cf > 0 {
        let cf_start: usize = n_bss * LEN_POSE + (pair.cf - 1) * LEN_POSE;
        p >= cf_start && p < cf_start + LEN_POSE
    } else {
        false
    };
    in_bs_block || in_cf_block
}

/// The residuals of a pair depend on twelve parameters, or on six if it is of the first sample:
/// no parameter belongs to both its base station and its sample.
pub proof fn law_blocks_apart(pair: AnglePair, n_bss: int, p: int)
    requires
        pair.bs < n_bss,
    ensures
        !(owner(p) == pair.bs && pair.cf > 0 && owner(p) == n_bss + pair.cf - 1),
        changes(pair, n_bss, p) ==> 0 <= p < 6 * (n_bss + pair.cf),
        pair.cf == 0 ==> (changes(pair, n_bss, p) <==> 6 * pair.bs <= p < 6 * pair.bs + 6),
{
}

/// Every sensor of every base station in sight in a sample has its angle pair: the pairs of a
/// sample follow those of the samples before, base station by base station and sensor by sensor.
pub proof fn law_pairs_complete(
    samples: Seq<WrapperView>,
    bs_poses: Seq<(u8, Pose)>,
    n: nat,
    k: int,
    sensor: int,
)
    requires
        n < samples.len(),
        samples.len() <= usize::MAX,
        bs_poses.len() <= usize::MAX,
        stations_known(samples, bs_poses),
        0 <= k < samples[n as int].sample.angles.len(),
        0 <= sensor < 4,
    ensures
        ({
            let before = all_pairs(samples, bs_poses, n);
            let all = all_pairs(samples, bs_poses, n + 1);
            let pair = all[before.len() + 4 * k + sensor];
            &&& all.take(before.len() as int) == before
            &&& all.len() == before.len() + 4 * samples[n as int].sample.angles.len()
            &&& pair.cf == n
            &&& pair.sensor == sensor
            &&& pair.bs < bs_poses.len()
            &&& bs_poses[pair.bs as int].0 == samples[n as int].sample.angles[k].0
        }),
{
    let before = all_pairs(samples, bs_poses, n);
    let all = all_pairs(samples, bs_poses, n + 1);
    let angles = samples[n as int].sample.angles;
    assert(all == before + sample_pairs(angles, bs_poses, n as int));
    assert(all.take(before.len() as int) =~= before);
    let at = 4 * k + sensor;
    assert(at / 4 == k && at % 4 == sensor);
    assert(all[before.len() + at] == sample_pairs(angles, bs_poses, n as int)[at]);
    assert(station_map::holds(bs_poses, samples[n as int].sample.angles[k].0));
    let id = angles[k].0;
    let i = choose|i: int| 0 <= i < bs_poses.len() && (#[trigger] bs_poses[i]).0 == id;
    assert(bs_poses[bs_place(bs_poses, id)].0 == id);
}

/// The refinement starts from the known poses of all samples but the first. What it gives becomes
/// their poses, in order; the first sample stands unturned at the origin. Nothing else changes.
pub proof fn law_refined(samples: Seq<WrapperView>, cf_poses: Seq<Pose>, i: int)
    requires
        samples.len() > 0,
        cf_poses.len() == samples.len() - 1,
        0 <= i < samples.len(),
    ensures
        refined(samples, cf_poses).len() == samples.len(),
        refined(samples, cf_poses)[0].pose == Some(types::identity_pose()),
        starting_poses(refined(samples, cf_poses)) == cf_poses,
        refined(samples, cf_poses)[i] == (WrapperView {
            pose: refined(samples, cf_poses)[i].pose,
            ..samples[i]
        }),
        i > 0 && samples[i].pose is Some ==> Some(starting_poses(samples)[i - 1]) == samples[i].pose,
        i > 0 && samples[i].pose is None ==> starting_poses(samples)[i - 1]
            == types::identity_pose(),
{
    assert(starting_poses(refined(samples, cf_poses)) =~= cf_poses);
}

/// The parameters of a pose stand together, six for each pose, in order.
pub proof fn law_flat(poses: Seq<[u64; 6]>, i: int, j: int)
    requires
        0 <= i < poses.len(),
        0 <= j < 6,
    ensures
        flat(poses).len() == 6 * poses.len(),
        flat(poses)[6 * i + j] == poses[i][j],
{
    assert((6 * i + j) / 6 == i && (6 * i + j) % 6 == j);
}

/// A pair changes with the six parameters of its base station and, unless it is of the first
/// sample, with the six of its sample, which stand behind those of all base stations.
pub proof fn law_parameter_blocks(pair: AnglePair, n_bss: int, p: int)
    ensures
        changes(pair, n_bss, p) <==> 6 * pair.bs <= p < 6 * pair.bs + 6 || (pair.cf > 0 && 6 * (n_bss
            + pair.cf - 1) <= p < 6 * (n_bss + pair.cf)),
{
}

} // verus!
