//! Scaling a geometry by what is known of real distances.

use crate::lh_geo::link_search;
use crate::lh_geo::sample;
use crate::lh_geo::sample::{LhCfPoseSampleWrapper, WrapperView};
use crate::lh_geo::station_map;
use crate::lh_geo::station_map::StationMap;
use crate::lh_geo::types::Pose;
use vstd::prelude::*;

verus! {

/// Scales a geometry.
pub struct LighthouseSystemScaler;

/// A diagonal of the deck as one base station sees it in one sample, from sensor to sensor.
#[derive(Debug, Clone, Copy, PartialEq, Eq, Structural)]
pub struct Diagonal {
    pub sample: usize,
    pub station: u8,
    pub from: usize,
    pub to: usize,
}

/// Both diagonals for each base station of a sample that has a pose.
pub open spec fn sample_diagonals(ids: Seq<u8>, place: int) -> Seq<Diagonal> {
    Seq::new(
        2 * ids.len(),
        |k: int|
            Diagonal {
                sample: place as usize,
                station: ids[k / 2],
                from: (k % 2) as usize,
                to: (3 - k % 2) as usize,
            },
    )
}

/// The diagonals of the first `n` samples.
pub open spec fn all_diagonals(
    samples: Seq<WrapperView>,
    bs_poses: Seq<(u8, Pose)>,
    n: nat,
) -> Seq<Diagonal>
    decreases n,
{
    if n == 0 {
        Seq::empty()
    } else {
        all_diagonals(samples, bs_poses, (n - 1) as nat) + sample_diagonals(
            link_search::stations_known(
                station_map::ids_of(samples[n - 1].sample.angles),
                bs_poses,
            ),
            n - 1,
        )
    }
}

impl LighthouseSystemScaler {
    /// The diagonals to measure: in each sample that has a pose of the Crazyflie, from sensor 0
    /// to sensor 3 and from sensor 1 to sensor 2, for each base station of known pose.
    pub fn calculate_mean_diagonal(
        bs_poses: &StationMap<Pose>,
        n_cf_poses: usize,
        matched_samples: &Vec<LhCfPoseSampleWrapper>,
    ) -> (diagonals: Vec<Diagonal>)
        ensures
            diagonals@ == all_diagonals(
                sample::wrapper_views(matched_samples@),
                bs_poses@,
                if n_cf_poses <= matched_samples@.len() {
                    n_cf_poses as nat
                } else {
                    matched_samples@.len()
                },
            ),
    {
        let ghost views = sample::wrapper_views(matched_samples@);
        let n: usize = if n_cf_poses <= matched_samples.len() {
            n_cf_poses
        } else {
            matched_samples.len()
        };
        let mut diagonals: Vec<Diagonal> = Vec::new();
        let mut s: usize = 0;
        while s < n
            invariant
                s <= n <= matched_samples@.len(),
                views == sample::wrapper_views(matched_samples@),
                diagonals@ == all_diagonals(views, bs_poses@, s as nat),
            decreases n - s,
        {
            assert(views[s as int] == matched_samples@[s as int]@);
            let ids = matched_samples[s].base_station_ids();
            let known = link_search::known_stations(&ids, bs_poses);
            let ghost before = diagonals@;
            let ghost part = sample_diagonals(known@, s as int);
            let mut k: usize = 0;
            assert(diagonals@ =~= before + part.take(0));
            while k < known.len()
                invariant
                    k <= known@.len(),
                    part == sample_diagonals(known@, s as int),
                    diagonals@ == before + part.take(2 * k),
                decreases known.len() - k,
            {
                diagonals.push(Diagonal { sample: s, station: known[k], from: 0, to: 3 });
                diagonals.push(Diagonal { sample: s, station: known[k], from: 1, to: 2 });
                assert(diagonals@ =~= before + part.take(2 * (k + 1)));
                k = k + 1;
            }
            assert(part.take(part.len() as int) =~= part);
            s = s + 1;
        }
        diagonals
    }
}

/// Both diagonals of the deck are measured from each base station: from the first sensor to the
/// last and from the second to the third.
pub proof fn law_diagonals(ids: Seq<u8>, place: int, i: int)
    requires
        0 <= i < ids.len(),
        0 <= place <= usize::MAX,
    ensures
        sample_diagonals(ids, place).len() == 2 * ids.len(),
        sample_diagonals(ids, place)[2 * i] == (Diagonal {
            sample: place as usize,
            station: ids[i],
            from: 0,
            to: 3,
        }),
        sample_diagonals(ids, place)[2 * i + 1] == (Diagonal {
            sample: place as usize,
            station: ids[i],
            from: 1,
            to: 2,
        }),
{
    assert((2 * i) / 2 == i && (2 * i) % 2 == 0);
    assert((2 * i + 1) / 2 == i && (2 * i + 1) % 2 == 1);
}

/// The diagonals of a sample follow those of the samples before: two for each of its base stations
/// of known pose.
pub proof fn law_all_diagonals(samples: Seq<WrapperView>, bs_poses: Seq<(u8, Pose)>, n: nat, k: int)
    requires
        n < samples.len(),
        samples.len() <= usize::MAX,
    ensures
        all_diagonals(samples, bs_poses, 0).len() == 0,
        ({
            let known = link_search::stations_known(
                station_map::ids_of(samples[n as int].sample.angles),
                bs_poses,
            );
            let before = all_diagonals(samples, bs_poses, n);
            let all = all_diagonals(samples, bs_poses, n + 1);
            &&& all.len() == before.len() + 2 * known.len()
            &&& all.take(before.len() as int) == before
            &&& 0 <= k < 2 * known.len() ==> all[before.len() + k].sample == n && all[before.len()
                + k].station == known[k / 2]
        }),
{
    let before = all_diagonals(samples, bs_poses, n);
    let all = all_diagonals(samples, bs_poses, n + 1);
    assert(all.take(before.len() as int) =~= before);
}

} // verus!
