//! The geometry of Lighthouse base stations.

use swarmkeeper::lh_geo::bs_vector::{angle_list, LighthouseBsVector, LighthouseBsVectors};
use swarmkeeper::lh_geo::container::{LhGeoInputContainer, LhGeoInputContainerData};
use swarmkeeper::lh_geo::crossing_beam::LighthouseCrossingBeam;
use swarmkeeper::lh_geo::estimation_manager::{BeamResult, EstimationPhase, LhGeoEstimationManager};
use swarmkeeper::lh_geo::geometry_solver::{affects, params_to_struct, struct_to_params, AnglePair, LighthouseGeometrySolver};
use swarmkeeper::lh_geo::initial_estimator::{BsPairIds, LighthouseInitialEstimator, ACCEPT_RADIUS, AMBIGUOUS_DETECTION_ERROR, DOUBLE_MAX};
use swarmkeeper::lh_geo::ippe::IppeCf;
use swarmkeeper::lh_geo::link_search::{known_stations, LinkRound};
use swarmkeeper::lh_geo::sample::{
    next_uid, BsPairPoses, LhCfPoseSample, LhCfPoseSampleStatus, LhCfPoseSampleType, LhCfPoseSampleWrapper,
    LARGE_ERROR_THRESHOLD,
};
use swarmkeeper::lh_geo::solution::LighthouseGeometrySolution;
use swarmkeeper::lh_geo::station_map::StationMap;
use swarmkeeper::lh_geo::system_aligner::{AlignPoint, LighthouseSystemAligner};
use swarmkeeper::lh_geo::system_scaler::LighthouseSystemScaler;
use swarmkeeper::lh_geo::types::{LhDeck4SensorPositions, Pose};
use swarmkeeper::lh_wizard::{
    collection_complete, get_bs_details, get_sample_details, measured_text, refusal_text, run_solver, sample_count,
    BsNumbers, LhWizardState, MeasureRefusal, SampleNumbers, WizardStep,
};

#[test]
fn test_angle_list() {
    let vectors: LighthouseBsVectors = [
        LighthouseBsVector::new(0.1f64.to_bits(), 0.2f64.to_bits()),
        LighthouseBsVector::new(0.3f64.to_bits(), 0.4f64.to_bits()),
        LighthouseBsVector::new(0.5f64.to_bits(), 0.6f64.to_bits()),
        LighthouseBsVector::new(0.7f64.to_bits(), 0.8f64.to_bits()),
    ];
    let al = angle_list(&vectors).map(f64::from_bits);
    assert_eq!(al, [0.1, 0.2, 0.3, 0.4, 0.5, 0.6, 0.7, 0.8]);
}

#[test]
fn test_pose_default() {
    let p = Pose::default();
    assert_eq!(p.rot_matrix.map(|r| r.map(f64::from_bits)), [[1.0, 0.0, 0.0], [0.0, 1.0, 0.0], [0.0, 0.0, 1.0]]);
    assert_eq!(p.translation.map(f64::from_bits), [0.0, 0.0, 0.0]);
}

#[test]
fn test_sensor_positions() {
    let pos = LhDeck4SensorPositions::positions();
    assert_eq!(pos.len(), 4);
    // All on z=0
    for p in &pos {
        assert_eq!(f64::from_bits(p[2]), 0.0);
    }
}

#[test]
fn sensors_form_a_rectangle() {
    let pos = LhDeck4SensorPositions::positions().map(|p| p.map(f64::from_bits));
    assert_eq!(pos, [[-0.015, 0.0075, 0.0], [-0.015, -0.0075, 0.0], [0.015, 0.0075, 0.0], [0.015, -0.0075, 0.0]]);
}

fn pose(x: f64) -> Pose {
    Pose::new(Pose::default().rot_matrix, [x.to_bits(), 0, 0])
}

#[test]
fn poses_compare_number_by_number() {
    assert!(pose(0.0) == pose(-0.0));
    assert!(pose(1.0) != pose(2.0));
    assert!(pose(f64::NAN) != pose(f64::NAN));
}

fn vectors() -> LighthouseBsVectors {
    [LighthouseBsVector::new(0.1f64.to_bits(), 0.2f64.to_bits()); 4]
}

fn angles(ids: &[u8]) -> StationMap<LighthouseBsVectors> {
    let mut map = StationMap::new();
    for id in ids {
        map.insert(*id, vectors());
    }
    map
}

fn sample(ids: &[u8], counter: &mut u64) -> LhCfPoseSample {
    LhCfPoseSample::new(angles(ids), counter)
}

fn estimates(n: usize) -> Vec<Option<BsPairPoses>> {
    vec![Some(BsPairPoses(pose(1.0), pose(2.0))); n]
}

fn wrapper(ids: &[u8], kind: LhCfPoseSampleType, counter: &mut u64) -> LhCfPoseSampleWrapper {
    let mut s = sample(ids, counter);
    s.augment_with_ippe(&estimates(ids.len()));
    LhCfPoseSampleWrapper::new(s, kind)
}

#[test]
fn station_maps_are_ordered() {
    let mut map = StationMap::new();
    assert!(map.is_empty());
    for id in [7u8, 2, 5, 2] {
        map.insert(id, id as u32 * 10 + map.len() as u32);
    }
    assert_eq!(map.ids(), vec![2, 5, 7]);
    assert_eq!(map.len(), 3);
    assert_eq!(map.get(2), Some(&23));
    assert_eq!(map.get(3), None);
    assert!(map.contains(5) && !map.contains(6));
    assert_eq!(map.entry(0), &(2, 23));
    assert_eq!(map.copied().ids(), map.ids());
}

#[test]
fn samples_are_numbered_and_augmented_once() {
    let mut counter = 5u64;
    let mut s = sample(&[3, 1], &mut counter);
    assert_eq!((s.uid(), counter), (5, 6));
    let mut last = u64::MAX;
    assert_eq!(next_uid(&mut last), u64::MAX);
    assert_eq!(last, 0);
    s.augment_with_ippe(&vec![None, Some(BsPairPoses(pose(1.0), pose(2.0)))]);
    assert_eq!(s.ippe_solutions.ids(), vec![3]);
    s.augment_with_ippe(&estimates(2));
    assert_eq!(s.ippe_solutions.ids(), vec![3]);
    assert_eq!(s.copied().uid(), 5);
    assert!(sample(&[], &mut counter).is_empty() && !s.is_empty());
    let w = LhCfPoseSampleWrapper::new(s, LhCfPoseSampleType::Origin);
    assert!(w.is_mandatory && w.is_valid() && !w.has_pose());
    assert_eq!(w.base_station_ids(), vec![1, 3]);
    assert_eq!(f64::from_bits(LARGE_ERROR_THRESHOLD), 0.01);
    let mut v = w.copied();
    v.error_distance = 0.02f64.to_bits();
    v.set_pose(pose(4.0));
    assert!(v.is_error_large() && !w.is_error_large());
    assert!(v.pose() == Some(pose(4.0)));
    assert_eq!(LhCfPoseSampleStatus::Valid.text(), "Ok");
    assert!(BsPairPoses(pose(1.0), pose(2.0)).as_slice()[1] == pose(2.0));
}

#[test]
fn samples_move_between_the_parts_of_a_container() {
    let mut counter = 0u64;
    let mut c = LhGeoInputContainer::new(LhDeck4SensorPositions::positions());
    assert!(c.is_empty());
    c.set_origin_sample(sample(&[0, 1], &mut counter), &estimates(2));
    c.set_x_axis_sample(sample(&[0, 1], &mut counter), &estimates(2));
    c.set_x_axis_sample(sample(&[0, 1], &mut counter), &estimates(2));
    c.append_xy_plane_sample(sample(&[0, 1], &mut counter), &estimates(2));
    c.append_xyz_space_samples(vec![sample(&[0, 1], &mut counter), sample(&[1], &mut counter)], &vec![estimates(2), estimates(1)]);
    c.append_verification_samples(vec![sample(&[0, 1], &mut counter)], &vec![estimates(2)]);
    let data = c.get_data_copy();
    assert_eq!((data.x_axis_sample_count(), data.xy_plane_sample_count(), data.xyz_space_sample_count()), (1, 1, 2));
    assert_eq!((data.origin_index(), data.x_axis_start_index(), data.xy_plane_start_index(), data.xyz_space_start_index()), (0, 1, 2, 3));
    assert_eq!(c.get_data_version(), 6);
    let uid = data.xyz_space[0].uid();
    c.convert_to_verification_sample(uid);
    assert_eq!((c.data.xyz_space.len(), c.data.verification.len()), (1, 2));
    c.convert_to_xyz_space_sample(uid);
    assert_eq!((c.data.xyz_space.len(), c.data.verification.len()), (2, 1));
    assert_eq!(c.data.xyz_space[1].uid(), uid);
    c.remove_sample(uid);
    assert_eq!(c.data.xyz_space.len(), 1);
    let version = c.get_data_version();
    c.remove_sample(9999);
    assert_eq!(c.get_data_version(), version);
    c.clear_all_samples();
    assert!(c.is_empty());
    assert_eq!(c.get_data_version(), 1);
    c.load(data);
    assert!(!c.is_empty());
}

#[test]
fn missing_origins_get_a_stand_in() {
    let mut data = LhGeoInputContainerData::new(LhDeck4SensorPositions::positions());
    let mut counter = 10u64;
    data.x_axis.push(sample(&[0, 1], &mut counter));
    assert_eq!(data.matched_angles().iter().map(|a| a.len()).collect::<Vec<_>>(), [0, 2]);
    let matched = data.get_matched_samples(&vec![vec![], estimates(2)], &mut counter);
    assert_eq!(matched.len(), 2);
    assert!(matched[0].pose_sample.is_empty());
    assert_eq!(matched[0].uid(), 11);
    assert_eq!(counter, 12);
    assert_eq!(matched[1].sample_type, LhCfPoseSampleType::XAxis);
    assert!(!data.is_empty() && data.copied().x_axis.len() == 1);
}

#[test]
fn the_greatest_distance_counts() {
    let bits = |v: &[f64]| v.iter().map(|d| d.to_bits()).collect::<Vec<_>>();
    assert_eq!(f64::from_bits(LighthouseCrossingBeam::max_distance_all_permutations(&bits(&[0.1, 0.5, f64::NAN, 0.3]))), 0.5);
    assert_eq!(LighthouseCrossingBeam::max_distance_all_permutations(&vec![]), 0);
}

#[test]
fn poses_need_four_points() {
    assert!(IppeCf::enough_points(4, 4) && !IppeCf::enough_points(3, 3) && !IppeCf::enough_points(5, 4));
    assert_eq!(IppeCf::sort_solutions(1.0f64.to_bits(), 2.0f64.to_bits()), [0, 1]);
    assert_eq!(IppeCf::sort_solutions(2.0f64.to_bits(), 1.0f64.to_bits()), [1, 0]);
    assert_eq!(IppeCf::sort_solutions(1.0f64.to_bits(), 1.0f64.to_bits()), [0, 1]);
}

#[test]
fn pairs_of_base_stations_are_found() {
    let mut counter = 0u64;
    let samples = vec![
        wrapper(&[0, 1], LhCfPoseSampleType::Origin, &mut counter),
        wrapper(&[1, 2], LhCfPoseSampleType::XAxis, &mut counter),
        wrapper(&[0, 1, 2], LhCfPoseSampleType::XyPlane, &mut counter),
    ];
    let mut table: Vec<(u8, u8, Vec<usize>)> =
        LighthouseInitialEstimator::find_bs_to_bs_poses(&samples).into_iter().map(|t| (t.pair.0, t.pair.1, t.samples)).collect();
    table.sort();
    assert_eq!(table, vec![(0, 1, vec![0, 2]), (0, 2, vec![2]), (1, 2, vec![1, 2])]);
    assert_eq!(LighthouseInitialEstimator::add_solution_permutations(&vec![1, 4, 9]), vec![BsPairIds(1, 4), BsPairIds(1, 9), BsPairIds(4, 9)]);
}

#[test]
fn the_closest_solution_is_chosen() {
    let d = |v: [f64; 4]| v.map(f64::to_bits);
    assert_eq!(f64::from_bits(ACCEPT_RADIUS), 0.8);
    assert_eq!(f64::from_bits(AMBIGUOUS_DETECTION_ERROR), 0.5);
    assert_eq!(f64::from_bits(DOUBLE_MAX), f64::MAX);
    let pose = |x: f64| Pose { translation: [x.to_bits(), 0, 0], ..Pose::default() };
    let one = BsPairPoses(pose(1.0), pose(2.0));
    let two = BsPairPoses(pose(3.0), pose(4.0));
    for (distances, success, first, second) in [
        ([3.0, 0.4, 0.2, 0.3], true, 2.0, 3.0),
        ([0.5, 9.0, 9.0, 9.0], true, 1.0, 3.0),
        ([0.6, 9.0, 9.0, 9.0], false, 1.0, 3.0),
        ([9.0, 0.7, 0.7, 9.0], false, 1.0, 4.0),
        ([9.0, 8.0, 7.0, 6.0], false, 2.0, 4.0),
        ([f64::NAN; 4], false, 0.0, 0.0),
    ] {
        let (found, pair) = LighthouseInitialEstimator::choose_solutions(&one, &two, &d(distances));
        assert_eq!(found, success);
        assert!(pair.0 == pose(first) && pair.1 == pose(second));
    }
    let likely = LighthouseInitialEstimator::find_most_likely_positions(&vec![d([9.0, 0.1, 9.0, 9.0]), d([0.1, 0.1, 9.0, 9.0]), d([9.0, 0.2, 0.1, 9.0])]);
    assert_eq!(likely, Some(vec![0, 2]));
    assert_eq!(LighthouseInitialEstimator::find_most_likely_positions(&vec![d([9.0; 4])]), None);
    assert_eq!(LighthouseInitialEstimator::largest_eigenvalue(&d([1.0, 5.0, 5.0, 2.0])), 1);
}

#[test]
fn ambiguous_samples_are_skipped() {
    let mut counter = 0u64;
    let mut samples = vec![
        wrapper(&[0, 1], LhCfPoseSampleType::Origin, &mut counter),
        wrapper(&[0, 1], LhCfPoseSampleType::XyzSpace, &mut counter),
    ];
    let mut solution = LighthouseGeometrySolution::empty();
    let near = Some([9.0, 9.0, 9.0, 0.1].map(f64::to_bits));
    let unclear = Some([9.0; 4].map(f64::to_bits));
    let (poses, kept) = LighthouseInitialEstimator::angles_to_poses(&mut samples, &vec![vec![near], vec![unclear]], &mut solution);
    assert_eq!(kept, vec![0]);
    assert!(*poses[0].get(0).unwrap() == pose(2.0) && *poses[0].get(1).unwrap() == pose(2.0));
    assert_eq!(samples[1].status, LhCfPoseSampleStatus::Ambiguous);
    assert_eq!(solution.xyz_space_samples_info, "1 sample(s) with ambiguities skipped");
    assert!(solution.progress_is_ok);
    let (_, kept) = LighthouseInitialEstimator::angles_to_poses(&mut samples, &vec![vec![unclear], vec![None]], &mut solution);
    assert_eq!(kept, vec![0]);
    assert!(!solution.progress_is_ok);
}

fn stations(ids: &[u8]) -> StationMap<Pose> {
    let mut map = StationMap::new();
    for id in ids {
        map.insert(*id, pose(*id as f64));
    }
    map
}

#[test]
fn base_stations_are_linked_through_samples() {
    let samples = vec![stations(&[1, 2]), stations(&[2, 4]), stations(&[4, 5])];
    let mut search = LighthouseInitialEstimator::estimate_bs_poses(&samples).unwrap_or_else(|_| panic!());
    assert_eq!(search.reference, 1);
    let mut rounds = 0;
    loop {
        match search.pending(&samples) {
            LinkRound::Finished => break,
            LinkRound::Stuck(_) => panic!(),
            LinkRound::Link(sources) => {
                rounds += 1;
                let poses: Vec<Pose> = sources.iter().map(|s| pose(s.station as f64)).collect();
                search.link(&samples, &poses);
            }
        }
    }
    assert_eq!(rounds, 3);
    assert_eq!(search.known.ids(), vec![1, 2, 4, 5]);
    assert_eq!(known_stations(&vec![0, 1, 4], &search.known), vec![1, 4]);
    assert_eq!(LighthouseInitialEstimator::estimate_cf_poses(&samples, &stations(&[2])), vec![vec![2], vec![2], vec![]]);
    let apart = vec![stations(&[1, 2]), stations(&[4, 5])];
    let mut search = LighthouseInitialEstimator::estimate_bs_poses(&apart).unwrap_or_else(|_| panic!());
    if let LinkRound::Link(_) = search.pending(&apart) {
        search.link(&apart, &vec![pose(2.0)]);
    }
    match search.pending(&apart) {
        LinkRound::Stuck(reason) => {
            assert_eq!(reason, "Can not link positions between all base stations");
        }
        _ => panic!(),
    }
    assert!(LighthouseInitialEstimator::estimate_bs_poses(&vec![]).is_err_and(|e| e == "Too little data, no reference"));
}

#[test]
fn links_are_counted() {
    let mut counter = 0u64;
    let samples = vec![
        wrapper(&[0, 1], LhCfPoseSampleType::Origin, &mut counter),
        wrapper(&[0, 1, 2], LhCfPoseSampleType::XAxis, &mut counter),
    ];
    let mut solution = LighthouseGeometrySolution::empty();
    LighthouseInitialEstimator::build_link_stats(&samples, &vec![0, 1], &mut solution);
    assert_eq!(solution.bs_sample_count.get(1), Some(&2));
    assert_eq!(solution.bs_sample_count.get(2), Some(&1));
    assert_eq!(solution.link_count.get(0).unwrap().get(1), Some(&2));
    assert_eq!(solution.link_count.get(1).unwrap().get(0), Some(&2));
    assert_eq!(solution.link_count.get(2).unwrap().get(0), Some(&1));
    assert!(solution.link_count.get(0).unwrap().get(0).is_none());
}

#[test]
fn the_solver_lays_out_its_parameters() {
    let mut counter = 0u64;
    let mut samples = vec![
        wrapper(&[1], LhCfPoseSampleType::Origin, &mut counter),
        wrapper(&[1, 3], LhCfPoseSampleType::XAxis, &mut counter),
    ];
    let layout = LighthouseGeometrySolver::prepare(&samples, &stations(&[1, 3]));
    assert_eq!(layout.bs_ids, vec![1, 3]);
    assert_eq!(layout.pairs.len(), 12);
    assert_eq!(layout.target_angles.len(), 24);
    assert_eq!(layout.pairs[11], AnglePair { bs: 1, cf: 1, sensor: 3 });
    assert_eq!(f64::from_bits(layout.target_angles[1]), 0.2);
    assert_eq!(layout.cf_poses.len(), 1);
    let params = struct_to_params(&vec![[1, 2, 3, 4, 5, 6]], &vec![[7; 6], [8; 6]]);
    let (bss, cfs) = params_to_struct(&params, 1, 2);
    assert_eq!((bss, cfs), (vec![[1, 2, 3, 4, 5, 6]], vec![[7; 6], [8; 6]]));
    let pair = AnglePair { bs: 0, cf: 1, sensor: 0 };
    assert_eq!((0..24).filter(|p| affects(&pair, 2, *p)).collect::<Vec<_>>(), vec![0, 1, 2, 3, 4, 5, 12, 13, 14, 15, 16, 17]);
    let mut solution = LighthouseGeometrySolution::empty();
    LighthouseGeometrySolver::solve(&mut samples, &layout, &vec![pose(5.0), pose(6.0)], &vec![pose(7.0)], true, &mut solution);
    assert!(solution.has_converged);
    assert!(*solution.bs_poses.get(3).unwrap() == pose(6.0));
    assert!(samples[0].pose() == Some(pose(0.0)) && samples[1].pose() == Some(pose(7.0)));
}

#[test]
fn alignment_and_scale() {
    let rows = LighthouseSystemAligner::calc_residual(1, 2);
    assert_eq!(rows.len(), 7);
    assert_eq!((rows[2].point, rows[2].axis), (AlignPoint::Origin, 2));
    assert_eq!((rows[4].point, rows[4].axis), (AlignPoint::XAxis(0), 2));
    assert_eq!((rows[6].point, rows[6].axis), (AlignPoint::XyPlane(1), 2));
    assert_eq!(LighthouseSystemAligner::de_flip_transformation((-1.0f64).to_bits(), 1.0f64.to_bits()), (true, false));
    assert_eq!(LighthouseSystemAligner::de_flip_transformation((-0.0f64).to_bits(), (-2.0f64).to_bits()), (false, true));
    let mut counter = 0u64;
    let samples = vec![wrapper(&[1, 9], LhCfPoseSampleType::Origin, &mut counter)];
    let diagonals = LighthouseSystemScaler::calculate_mean_diagonal(&stations(&[1]), 5, &samples);
    assert_eq!(diagonals.iter().map(|d| (d.sample, d.station, d.from, d.to)).collect::<Vec<_>>(), vec![(0, 1, 0, 3), (0, 1, 1, 2)]);
}

fn full_container(counter: &mut u64) -> LhGeoInputContainer {
    let mut c = LhGeoInputContainer::new(LhDeck4SensorPositions::positions());
    c.set_origin_sample(sample(&[0, 1], counter), &estimates(2));
    c.set_x_axis_sample(sample(&[0, 1], counter), &estimates(2));
    c.append_xy_plane_sample(sample(&[0, 1], counter), &estimates(2));
    c.append_verification_samples(vec![sample(&[0, 1], counter)], &vec![estimates(2)]);
    c
}

#[test]
fn an_estimation_runs_through_its_phases() {
    let mut counter = 0u64;
    let c = full_container(&mut counter);
    let mut e = run_solver(&c, &vec![estimates(2); 4], &mut counter);
    assert_eq!(e.phase, EstimationPhase::InitialEstimate);
    assert_eq!((e.n_x, e.n_xy), (1, 1));
    let clear = vec![Some([9.0, 9.0, 9.0, 0.1].map(f64::to_bits))];
    let distances = vec![clear; e.solution.samples.len()];
    let (_, kept) = e.select_poses(&distances).unwrap();
    assert_eq!(kept, vec![0, 1, 2, 3]);
    assert_eq!(e.solution.bs_sample_count.get(0), Some(&4));
    e.initial_estimated(&kept, Ok((stations(&[0, 1]), vec![pose(0.0), pose(1.0), pose(2.0), pose(3.0)])));
    assert_eq!(e.phase, EstimationPhase::Refine);
    let layout = e.refinement();
    assert_eq!(layout.pairs.len(), 32);
    e.refined(&layout, &vec![pose(0.0), pose(1.0)], &vec![pose(1.0), pose(2.0), pose(3.0)], true);
    assert_eq!(e.phase, EstimationPhase::AlignAndScale);
    let input = e.align_and_scale_solution().unwrap();
    assert_eq!((input.x_axis.len(), input.xy_plane.len(), input.cf_poses.len()), (1, 1, 4));
    e.aligned(Some((stations(&[0, 1]), vec![pose(9.0); 4])));
    assert_eq!(e.beams_to_cross(), vec![vec![0, 1]; 4]);
    let result = BeamResult { distance: 0.25f64.to_bits(), position: [1, 2, 3] };
    e.create_solution_stats(&vec![result; 4]);
    assert_eq!((e.errors.len(), e.verification_errors.len()), (3, 1));
    e.create_verification_stats(1, 2, 3, 4);
    assert_eq!(e.phase, EstimationPhase::Finished);
    assert_eq!(f64::from_bits(e.solution.error_stats.unwrap().max), 0.25);
    assert_eq!(e.solution.verification_stats.unwrap().mean, 3);
    assert!(e.solution.samples[3].pose().unwrap().translation == [1, 2, 3]);
    assert!(e.solution.progress_is_ok);
}

#[test]
fn an_estimation_without_data_says_so() {
    let mut data = LhGeoInputContainerData::new(LhDeck4SensorPositions::positions());
    let mut counter = 0u64;
    let e = LhGeoEstimationManager::estimate_geometry(&mut data, &vec![vec![]], &mut counter);
    assert_eq!(e.phase, EstimationPhase::Finished);
    assert!(!e.solution.progress_is_ok && !e.solution.is_x_axis_samples_valid);
    assert_eq!(e.solution.x_axis_samples_info, "No data");
    assert_eq!(e.solution.xy_plane_samples_info, "No data");
    let c = full_container(&mut counter);
    let mut e = run_solver(&c, &vec![estimates(2); 4], &mut counter);
    let unclear = vec![vec![Some([9.0; 4].map(f64::to_bits))]; 4];
    assert!(e.select_poses(&unclear).is_none());
    assert_eq!(e.phase, EstimationPhase::Finished);
    assert_eq!(e.solution.origin_sample_info, "Ambiguous");
    let c = full_container(&mut counter);
    let mut e = run_solver(&c, &vec![estimates(2); 4], &mut counter);
    e.initial_estimated(&vec![], Err("no link".to_string()));
    assert_eq!(e.solution.general_failure_info, "no link");
}

#[test]
fn validation_marks_samples() {
    let mut counter = 0u64;
    let mut samples = vec![
        wrapper(&[], LhCfPoseSampleType::Origin, &mut counter),
        wrapper(&[1], LhCfPoseSampleType::XAxis, &mut counter),
        wrapper(&[1], LhCfPoseSampleType::XyzSpace, &mut counter),
        wrapper(&[1, 2], LhCfPoseSampleType::XyzSpace, &mut counter),
        wrapper(&[1, 2], LhCfPoseSampleType::Verification, &mut counter),
    ];
    let mut solution = LighthouseGeometrySolution::empty();
    let valid = LhGeoEstimationManager::data_validation(&mut samples, 1, 1, &mut solution);
    assert_eq!(valid, vec![0, 1, 3]);
    assert_eq!(samples[0].status, LhCfPoseSampleStatus::NoData);
    assert_eq!(samples[1].status, LhCfPoseSampleStatus::TooFewBs);
    assert!(!solution.progress_is_ok && solution.contains_samples);
    let (fine, info) = LhGeoEstimationManager::error_info_for(&samples, LhCfPoseSampleType::XAxis);
    assert!(!fine);
    assert_eq!(info, LhCfPoseSampleStatus::TooFewBs.text());
    solution.samples = samples;
    LhGeoEstimationManager::humanize_error_info(&mut solution);
    assert!(!solution.is_x_axis_samples_valid && solution.is_xy_plane_samples_valid);
}

#[test]
fn the_wizard_walks_its_steps() {
    for (i, name) in ["Origin", "XAxis", "XyPlane", "XyzSpace", "Verification"].iter().enumerate() {
        let step = WizardStep::from_index(i as i32);
        assert_eq!(step.index(), i as i32);
        assert_eq!(step.name(), *name);
        assert_eq!(step.next().index(), (i as i32 + 1).min(4));
        assert_eq!(step.previous().index(), (i as i32 - 1).max(0));
        assert!(!step.instructions().is_empty() && !step.button_text().is_empty());
    }
    assert_eq!(WizardStep::from_index(-3), WizardStep::Origin);
    assert_eq!(WizardStep::from_index(5), WizardStep::Origin);
}

#[test]
fn the_wizard_collects_samples() {
    let mut counter = 0u64;
    let mut w = LhWizardState::new();
    w.add_measured(sample(&[0, 1], &mut counter), estimates(2));
    w.current_step = WizardStep::XAxis;
    w.add_measured(sample(&[0, 1], &mut counter), estimates(2));
    w.add_measured(sample(&[0, 1], &mut counter), estimates(2));
    w.current_step = WizardStep::XyzSpace;
    w.add_measured(sample(&[0, 1], &mut counter), estimates(2));
    w.add_measured(sample(&[0, 1], &mut counter), estimates(2));
    assert!(w.container.data.origin.is_some());
    assert_eq!((w.container.data.x_axis.len(), w.container.data.xyz_space.len()), (1, 2));
    assert_eq!(w.container.get_data_version(), 5);
    w.clear();
    assert!(w.container.is_empty() && w.current_step == WizardStep::Origin);
    assert!(collection_complete(&vec![50, 51]) && !collection_complete(&vec![50, 49]) && !collection_complete(&vec![]));
    assert_eq!(measured_text(WizardStep::XAxis, &vec![70, 12]), "XAxis measured (2 BS, 12 samples avg)");
    assert_eq!(measured_text(WizardStep::Origin, &vec![70]), "Origin measured (1 BS, 50 samples avg)");
    assert_eq!(refusal_text(MeasureRefusal::NothingSelected), "No Crazyflie selected");
    assert_eq!(refusal_text(MeasureRefusal::NotConnected), "Crazyflie not connected");
    assert_eq!(refusal_text(MeasureRefusal::NoAngleStream), "Failed to enable angle stream");
    assert_eq!(refusal_text(MeasureRefusal::NoAngles), "Timeout - no angle data received");
}

#[test]
fn the_wizard_shows_details() {
    let mut counter = 0u64;
    let mut solution = LighthouseGeometrySolution::new(vec![
        wrapper(&[0, 1], LhCfPoseSampleType::Origin, &mut counter),
        wrapper(&[0, 1], LhCfPoseSampleType::Verification, &mut counter),
    ]);
    solution.samples[0].set_pose(pose(1.0));
    solution.samples[1].error_distance = 0.5f64.to_bits();
    let numbers = || SampleNumbers { x: "x".to_string(), y: "y".to_string(), z: "z".to_string(), error: "e".to_string() };
    let details = get_sample_details(&solution, &vec![numbers(), numbers()]);
    assert_eq!((details[0].x.as_str(), details[0].error.as_str()), ("x", "—"));
    assert_eq!((details[1].x.as_str(), details[1].error.as_str()), ("—", "e"));
    assert!(details[1].is_verification && details[1].is_large_error && !details[1].is_invalid);
    assert_eq!(sample_count(&solution.samples, LhCfPoseSampleType::Origin), 1);
    LighthouseInitialEstimator::build_link_stats(
        &vec![wrapper(&[0, 1], LhCfPoseSampleType::Origin, &mut counter)],
        &vec![0],
        &mut solution,
    );
    solution.bs_poses = stations(&[0, 1]);
    solution.link_count_ok_threshold = 2;
    let n = || BsNumbers { x: "1".to_string(), y: "2".to_string(), z: "3".to_string() };
    let rows = get_bs_details(&solution, &vec![n(), n()]);
    assert_eq!((rows[1].id, rows[1].samples, rows[1].links, rows[1].low_links), (1, 1, 1, true));
}
