//! Coverage, planning, the files they are kept in, and editing.

use swarmkeeper::coverage::{
    compute_coverage, compute_coverage_with_obstacles, is_covered, restore_stations, store_stations, BaseStation,
    CoverageResult, GridSize, Scene, SightGrid, Sighting, SweepLimits, Voxel,
};
use swarmkeeper::editing::{
    added_anchor, added_station, clamp_elevation, kind_from_name, kind_name, AnchorEditor, Handle, PlannedRoom,
    PlanningEditor, Selection, StationEditor,
};
use swarmkeeper::geometry_file::{load_geometry_yaml, read_geometry};
use swarmkeeper::obstacle_mesh::{
    box_corners, triangulate_box, triangulate_cylinder, wireframe_box, wireframe_cylinder, RingPoint, SEGMENTS,
};
use swarmkeeper::planning::{
    any_obstacle_blocks, default_color, default_max_bs_dist, default_max_range, default_max_tilt,
    default_show_coverage, default_tdoa3_scale_max, next_waypoint_try, pick_area, point_blocked, point_in_areas, ray_aabb_intersect,
    ray_cylinder_intersect, rng_next_unit, rng_seed, sample_waypoint, save_pads_to_scene, seed_from, segment_blocked,
    Anchor, BoxVolume, CylinderRay, LocalPoint, Obstacle, ObstacleKind, PlanningScene, Slab, TakeoffPad,
    WaypointSearch, WaypointStep, NEARLY_ZERO,
};
use swarmkeeper::tdoa_display::{
    anchor_number, anchors_text, display_source, error_axis, error_metric_to_dop, higher_is_better, is_anchor_pair,
    metric_name, shown_bound, shown_voxels, slider_range, slider_stats, DisplaySource, StoredMetric,
};
use swarmkeeper::yaml::{Yaml, YamlEntry};

fn b(v: f32) -> u32 {
    v.to_bits()
}

fn sighting(ahead: f32, distance: f32, horizontal: f32) -> Sighting {
    Sighting { ahead: b(ahead), distance: b(distance), horizontal: b(horizontal), vertical: 0, receiver: b(1.0), blocked: false }
}

fn limits() -> SweepLimits {
    SweepLimits { horizontal: b(0.8), vertical: b(0.5), receiver: None, distance: b(5.0) }
}

#[test]
fn a_voxel_must_be_in_the_sweep() {
    assert!(is_covered(&sighting(1.0, 1.0, 0.1), &limits(), true));
    assert!(!is_covered(&sighting(0.0, 1.0, 0.1), &limits(), true));
    assert!(!is_covered(&sighting(-1.0, 1.0, 0.1), &limits(), true));
    assert!(is_covered(&sighting(5.0, 5.0, 0.1), &limits(), true));
    assert!(!is_covered(&sighting(5.1, 5.1, 0.1), &limits(), true));
    assert!(!is_covered(&sighting(1.0, 1.0, 0.8), &limits(), true));
    let narrow = SweepLimits { receiver: Some(b(0.5)), ..limits() };
    assert!(!is_covered(&sighting(1.0, 1.0, 0.1), &narrow, true));
    let hidden = Sighting { blocked: true, ..sighting(1.0, 1.0, 0.1) };
    assert!(!is_covered(&hidden, &limits(), true));
    assert!(is_covered(&hidden, &limits(), false));
}

#[test]
fn coverage_counts_base_stations() {
    let near = sighting(1.0, 1.0, 0.1);
    let far = sighting(9.0, 9.0, 0.1);
    let size = GridSize { nx: 2, ny: 1, nz: 2 };
    let one = || SightGrid { cells: vec![vec![vec![near, far]], vec![vec![near, near]]] };
    let result = compute_coverage(7, &size, &vec![one(), one()], &limits());
    assert_eq!(result.voxels, vec![vec![vec![2, 0]], vec![vec![2, 2]]]);
    assert_eq!(result.resolution, 7);
    assert_eq!(result.coverage_ratio(1), (3, 4));
    assert_eq!(result.coverage_ratio(3), (0, 4));
    let voxels = result.iter_voxels();
    assert_eq!(voxels.len(), 4);
    assert_eq!(voxels[1], Voxel { x: 1, y: 0, z: 0, count: 0 });
    assert_eq!(voxels[2], Voxel { x: 0, y: 0, z: 1, count: 2 });
    let inside = vec![vec![vec![true, false]], vec![vec![false, false]]];
    let obstructed = compute_coverage_with_obstacles(7, &size, &vec![one(), one()], &limits(), &inside, 1);
    assert_eq!(obstructed.voxels, vec![vec![vec![0, 0]], vec![vec![2, 2]]]);
    let open = compute_coverage_with_obstacles(7, &size, &vec![one(), one()], &limits(), &vec![], 0);
    assert_eq!(open.voxels, result.voxels);
    let many: Vec<SightGrid> = (0..6).map(|_| one()).collect();
    assert_eq!(compute_coverage(7, &size, &many, &limits()).voxels[0][0][0], 6);
    let hundreds = |n: usize| -> Vec<SightGrid> { (0..n).map(|_| one()).collect() };
    let level = |n: usize| compute_coverage(7, &size, &hundreds(n), &limits()).voxels[0][0][0];
    assert_eq!((level(100), level(120), level(220), level(300)), (100, 120, 220, 255));
    assert_eq!(CoverageResult { resolution: 0, voxels: vec![] }.coverage_ratio(1), (0, 0));
}

fn station(x: f32) -> BaseStation {
    BaseStation { pos: [b(x), b(1.0), b(2.0)], azimuth_deg: b(10.0), elevation_deg: b(20.0) }
}

#[test]
fn scenes_keep_what_they_are_given() {
    let stations = vec![station(1.0), station(2.0)];
    let back = restore_stations(&store_stations(&stations));
    assert_eq!(back.len(), 2);
    assert_eq!(back[1].pos, stations[1].pos);
    assert_eq!(back[1].elevation_deg, b(20.0));
    let scene = Scene::new(b(8.0), b(7.0), b(3.0), b(2.0), true, false, true, b(10.0), b(5.0), [true, false, true, false, true], &stations);
    assert_eq!(scene.room_y, b(7.0));
    assert_eq!(scene.base_stations()[0].pos, stations[0].pos);
    let anchors = vec![Anchor { pos: [1, 2, 3] }];
    let planned = PlanningScene::new(
        b(8.0), b(7.0), b(3.0), b(5.0), false, [0, 0, 0], &stations, &anchors, &vec![Obstacle::new_box([4, 5, 6])],
        vec![BoxVolume::new([0, 0, 0], [b(1.0), b(1.0), b(1.0)])], vec![],
        vec![TakeoffPad { x: 1, y: 2, radius: 3, label: "p".to_string() }],
        true, b(5.0), [true; 5], b(15.0), 0, b(0.5), false, b(10.0),
    );
    assert_eq!(planned.anchors()[0].pos, [1, 2, 3]);
    assert_eq!(planned.base_stations().len(), 2);
    assert_eq!(planned.obstacles()[0].pos, [4, 5, 6]);
    assert_eq!(planned.flight_areas.len(), 1);
    assert_eq!(planned.takeoff_pads[0].label, "p");
}

#[test]
fn defaults_are_plain_numbers() {
    assert_eq!(default_color().map(f32::from_bits), [0.45, 0.45, 0.5]);
    assert_eq!(f32::from_bits(default_max_bs_dist()), 5.0);
    assert_eq!(f32::from_bits(default_max_range()), 15.0);
    assert_eq!(f32::from_bits(default_tdoa3_scale_max()), 0.5);
    assert_eq!(f32::from_bits(default_max_tilt()), 10.0);
    assert_eq!(default_show_coverage().len(), 5);
    assert!(swarmkeeper::coverage::default_true() && swarmkeeper::planning::default_true());
    assert_eq!(f32::from_bits(swarmkeeper::coverage::default_tilt()), 10.0);
    assert_eq!(f32::from_bits(swarmkeeper::coverage::default_max_dist()), 5.0);
    assert_eq!(f32::from_bits(NEARLY_ZERO), 1e-12);
}

#[test]
fn points_are_inside_obstacles() {
    let p = LocalPoint {
        x: b(0.5), y: b(0.2), z: b(0.1), radius_squared: b(0.29), half_width: b(0.5), half_depth: b(0.5),
        half_height: b(0.5), limit_squared: b(0.25),
    };
    assert!(Obstacle::new_box([0, 0, 0]).contains_point(&p));
    assert!(!Obstacle::new_cylinder([0, 0, 0]).contains_point(&p));
    let higher = LocalPoint { z: b(0.6), radius_squared: 0, ..p };
    assert!(!Obstacle::new_box([0, 0, 0]).contains_point(&higher));
    assert!(!Obstacle::new_cylinder([0, 0, 0]).contains_point(&higher));
    assert!(any_obstacle_blocks(&vec![false, true]) && !any_obstacle_blocks(&vec![]));
    assert!(point_blocked(&vec![true]) && !segment_blocked(&vec![false]));
}

fn slab(origin: f32, to: f32, half: f32) -> Slab {
    let d = to - origin;
    Slab {
        direction: b(d.abs()),
        origin: b(origin),
        low: b(-half),
        high: b(half),
        meets_low: b((-half - origin) / d),
        meets_high: b((half - origin) / d),
    }
}

#[test]
fn rays_meet_boxes() {
    let hit = |from: [f32; 3], to: [f32; 3]| ray_aabb_intersect(&[slab(from[0], to[0], 0.5), slab(from[1], to[1], 0.5), slab(from[2], to[2], 0.5)]);
    assert!(hit([-2.0, 0.0, 0.0], [2.0, 0.0, 0.0]));
    assert!(!hit([-2.0, 1.0, 0.0], [2.0, 1.0, 0.0]));
    assert!(!hit([-2.0, 0.0, 0.0], [-1.0, 0.0, 0.0]));
    assert!(hit([0.0, 0.0, 0.0], [0.1, 0.1, 0.1]));
    assert!(hit([-1.0, -1.0, 0.0], [1.0, 1.0, 0.3]));
    assert!(!hit([-1.0, 0.2, 0.0], [0.2, 1.4, 0.0]));
}

#[test]
fn rays_meet_cylinders() {
    let across = CylinderRay {
        across: b(16.0), outside: b(3.75), discriminant: b(4.0), meets_first: b(0.375), meets_second: b(0.625),
        caps: slab(0.0, 0.0, 0.5),
    };
    assert!(ray_cylinder_intersect(&across));
    assert!(!ray_cylinder_intersect(&CylinderRay { discriminant: b(-1.0), ..across }));
    assert!(!ray_cylinder_intersect(&CylinderRay { caps: slab(2.0, 2.0, 0.5), ..across }));
    assert!(!ray_cylinder_intersect(&CylinderRay { meets_first: b(1.5), meets_second: b(2.0), ..across }));
    let along = CylinderRay { across: 0, outside: b(-0.1), caps: slab(-2.0, 2.0, 0.5), ..across };
    assert!(ray_cylinder_intersect(&along));
    assert!(!ray_cylinder_intersect(&CylinderRay { outside: b(0.1), ..along }));
}

#[test]
fn areas_hold_points() {
    let v = BoxVolume::new([b(1.0), b(0.0), b(0.0)], [b(0.0), b(1.0), b(1.0)]);
    let w = BoxVolume::new([b(0.0), b(0.0), b(0.0)], [b(1.0), b(1.0), b(1.0)]);
    assert!(w.contains([b(0.5), b(1.0), b(0.0)]));
    assert!(!w.contains([b(0.5), b(1.1), b(0.0)]));
    assert!(!v.contains([b(0.5), b(0.5), b(0.5)]));
    assert!(point_in_areas(&vec![v, w], [b(0.5), b(0.5), b(0.5)]));
    assert!(!point_in_areas(&vec![], [0, 0, 0]));
}

#[test]
fn the_generator_is_xorshift() {
    let mut state = 1u64;
    let mut s = 1u64;
    for _ in 0..100 {
        let n = rng_next_unit(&mut state);
        s ^= s << 13;
        s ^= s >> 7;
        s ^= s << 17;
        assert_eq!(state, s);
        assert_eq!(n, s >> 11);
        assert!((n as f64) / ((1u64 << 53) as f64) < 1.0);
    }
    assert_eq!(seed_from(Some(0)), 1);
    assert_eq!(seed_from(Some(1 << 64)), 1);
    assert_eq!(seed_from(Some((1 << 64) + 5)), 5);
    assert_eq!(seed_from(None), 0x9e37_79b9_7f4a_7c15);
    assert!(rng_seed() >= 1);
}

#[test]
fn waypoints_are_drawn() {
    assert_eq!(pick_area(&vec![b(0.5), b(-0.5)], &vec![b(1.0), b(1.0)]), 0);
    assert_eq!(pick_area(&vec![b(1.5), b(0.5)], &vec![b(1.0), b(1.0)]), 1);
    assert_eq!(pick_area(&vec![b(9.5), b(8.5), b(7.5)], &vec![b(1.0), b(1.0), b(1.0)]), 2);
    let mut search = WaypointSearch { areas: 2, has_volume: true, tries_left: 1 };
    let mut rng = 42u64;
    let mut other = 42u64;
    let draws = sample_waypoint(&mut search, &mut rng).unwrap();
    assert_eq!(draws.area, Some(rng_next_unit(&mut other)));
    assert_eq!(draws.x, rng_next_unit(&mut other));
    assert_eq!(draws.y, rng_next_unit(&mut other));
    assert_eq!(draws.z, rng_next_unit(&mut other));
    assert_eq!(rng, other);
    assert!(sample_waypoint(&mut search, &mut rng).is_none());
    let mut none = WaypointSearch { areas: 0, has_volume: false, tries_left: 9 };
    assert!(sample_waypoint(&mut none, &mut rng).is_none());
    let mut flat = WaypointSearch { areas: 1, has_volume: false, tries_left: 9 };
    assert_eq!(sample_waypoint(&mut flat, &mut rng).unwrap().area, None);
}

#[test]
fn waypoints_are_outside_all_obstacles() {
    let mut search = WaypointSearch { areas: 1, has_volume: false, tries_left: 2 };
    let mut rng = 42u64;
    assert!(sample_waypoint(&mut search, &mut rng).is_some());
    assert_eq!(next_waypoint_try(&search, &vec![]), WaypointStep::Accept);
    assert_eq!(next_waypoint_try(&search, &vec![false, false]), WaypointStep::Accept);
    assert_eq!(next_waypoint_try(&search, &vec![false, true]), WaypointStep::TryAgain);
    assert!(sample_waypoint(&mut search, &mut rng).is_some());
    assert_eq!(next_waypoint_try(&search, &vec![true, false]), WaypointStep::GiveUp);
    assert_eq!(next_waypoint_try(&search, &vec![false]), WaypointStep::Accept);
    assert!(sample_waypoint(&mut search, &mut rng).is_none());
}

#[test]
fn pads_are_saved_into_a_scene() {
    let pads = || serde_yaml::from_str::<serde_yaml::Value>("[{x: 1.0, label: A}]").unwrap();
    let fresh = save_pads_to_scene(None, pads()).unwrap();
    assert_eq!(fresh, "takeoff_pads:\n- x: 1.0\n  label: A\n");
    let scene = "room_x: 8.0\ntakeoff_pads: []\nnotes: keep me\n";
    let saved = save_pads_to_scene(Some(scene), pads()).unwrap();
    assert_eq!(saved, "room_x: 8.0\ntakeoff_pads:\n- x: 1.0\n  label: A\nnotes: keep me\n");
    let twice = save_pads_to_scene(Some(&saved), pads()).unwrap();
    assert_eq!(twice, saved);
    assert_eq!(save_pads_to_scene(Some("[1]"), pads()), Err("Scene file is not a YAML mapping".to_string()));
    assert_eq!(save_pads_to_scene(Some("a: ["), pads()), Ok(fresh));
    let unwritable = serde_yaml::from_str::<serde_yaml::Value>("!a {b: !c d}").unwrap();
    assert!(save_pads_to_scene(None, unwritable).is_ok());
}

#[test]
fn geometry_files_are_read() {
    let content = "geos:\n  2:\n    origin: [1.5, 2, -3]\n    rotation: [[1, 0, 0], [0, 1, 0], [0, 0, 1]]\n  0:\n    origin: [0, 0, 0.25]\n    rotation: [[0, 1, 0], [1, 0, 0], [0, 0, 1]]\n";
    let stations = load_geometry_yaml(content).unwrap();
    assert_eq!(stations.iter().map(|s| s.id).collect::<Vec<_>>(), [0, 2]);
    assert_eq!(stations[1].origin.map(f64::from_bits), [1.5, 2.0, -3.0]);
    assert_eq!(stations[0].rotation[0].map(f64::from_bits), [0.0, 1.0, 0.0]);
}

#[test]
fn wrong_geometry_files_are_refused() {
    let refused = |content: &str| load_geometry_yaml(content).unwrap_err();
    let rot = "rotation: [[1, 0, 0], [0, 1, 0], [0, 0, 1]]";
    assert!(refused("geos: [").starts_with("Failed to parse YAML: "));
    assert_eq!(refused("a: 1"), "Missing 'geos' key in file");
    assert_eq!(refused("geos: 1"), "'geos' is not a mapping");
    assert!(refused(&format!("geos: {{x: {{origin: [0, 0, 0], {rot}}}}}")).starts_with("Invalid base station key: "));
    assert_eq!(refused("geos: {1: {}}"), "Missing 'origin'");
    assert_eq!(refused("geos: {1: {origin: 5}}"), "'origin' is not a list");
    assert_eq!(refused("geos: {1: {origin: [1, 2]}}"), "BS 1: origin must have 3 elements");
    assert_eq!(refused("geos: {1: {origin: [1, x, 2]}}"), "Bad origin[1]");
    assert_eq!(refused("geos: {1: {origin: [1, 2, 3]}}"), "Missing 'rotation'");
    assert_eq!(refused("geos: {1: {origin: [1, 2, 3], rotation: a}}"), "'rotation' is not a list");
    assert_eq!(refused("geos: {1: {origin: [1, 2, 3], rotation: []}}"), "BS 1: rotation must have 3 rows");
    assert_eq!(refused("geos: {1: {origin: [1, 2, 3], rotation: [1, 2, 3]}}"), "rotation row not a list");
    assert_eq!(refused("geos: {1: {origin: [1, 2, 3], rotation: [[1, 2, 3], [1], [1]]}}"), "BS 1: rotation row 1 must have 3 elements");
    assert_eq!(refused("geos: {1: {origin: [1, 2, 3], rotation: [[1, 2, 3], [1, 2, 3], [1, 2, q]]}}"), "Bad rotation element");
}

#[test]
fn documents_are_plain_trees() {
    let number = |n: i64| Yaml::Number { integer: Some(n), unsigned: None, bits: (n as f64).to_bits() };
    let text = |s: &str| Yaml::Text(s.to_string());
    let tree = Yaml::Tagged(
        "!t".to_string(),
        Box::new(Yaml::Mapping(vec![YamlEntry { key: text("a"), shown: "a".to_string(), value: number(4) }])),
    );
    assert!(matches!(tree.untag(), Yaml::Mapping(_)));
    assert_eq!(tree.get("a").unwrap().as_integer(), Some(4));
    assert_eq!(tree.get("a").unwrap().as_double().map(f64::from_bits), Some(4.0));
    assert!(tree.get("b").is_none());
    assert!(tree.as_list().is_none());
    assert_eq!(tree.as_mapping().unwrap().len(), 1);
    assert!(read_geometry(&Yaml::Null).is_err());
}

#[test]
fn box_meshes_are_closed() {
    let mesh = triangulate_box();
    assert_eq!(mesh.len(), 36);
    let mut edges = Vec::new();
    for t in mesh.chunks(3) {
        for k in 0..3 {
            edges.push((t[k], t[(k + 1) % 3]));
        }
    }
    for (a, c) in &edges {
        assert_eq!(edges.iter().filter(|e| **e == (*c, *a)).count(), 1);
    }
    let corners = box_corners();
    let lines = wireframe_box();
    assert_eq!(lines.len(), 12);
    for (a, c) in lines {
        assert_eq!((0..3).filter(|k| corners[a][*k] != corners[c][*k]).count(), 1);
    }
}

#[test]
fn cylinder_meshes_are_closed() {
    let mesh = triangulate_cylinder();
    let mut edges: Vec<(RingPoint, RingPoint)> = Vec::new();
    for t in mesh.chunks(3) {
        for k in 0..3 {
            edges.push((t[k], t[(k + 1) % 3]));
        }
    }
    assert_eq!(mesh.len(), SEGMENTS * 12);
    for (a, c) in &edges {
        assert_eq!(edges.iter().filter(|e| **e == (*c, *a)).count(), 1);
    }
    assert!(wireframe_cylinder().len() >= 2 * SEGMENTS);
}

#[test]
fn metrics_are_chosen_from_a_list() {
    assert_eq!(display_source(0), DisplaySource::Stored { metric: StoredMetric::Gdop, scaled: false });
    assert_eq!(display_source(9), DisplaySource::Stored { metric: StoredMetric::Vdop, scaled: true });
    assert_eq!(display_source(13), DisplaySource::AxisSensitivity(1));
    assert_eq!(display_source(16), DisplaySource::MinSensitivity { include_z: false });
    assert_eq!(metric_name(10), "σ_xy");
    assert_eq!(error_axis(11), Some("Global"));
    assert_eq!(error_axis(6), None);
    assert!(higher_is_better(5) && higher_is_better(14) && !higher_is_better(7));
    for (index, max, first) in [(0, 2.0, 0.5), (1, 2.0, 0.3), (3, 2.0, 0.2), (5, 30.0, 10.0), (6, 2.0, 2.0), (8, 1.0, 0.03), (11, 1.0, 0.05), (16, 10.0, 5.0)] {
        let (a, z) = slider_range(index);
        assert_eq!((f32::from_bits(a), f32::from_bits(z)), (max, first));
    }
    assert_eq!(anchors_text(8), "8 anchors, 28 pairs");
    assert_eq!(anchors_text(0), "0 anchors, 0 pairs");
    assert_eq!(anchor_number("3", 1), 3);
    assert_eq!(anchor_number("x", 1), 1);
    assert!(is_anchor_pair(0, 1, 2) && !is_anchor_pair(1, 1, 2) && !is_anchor_pair(0, 2, 2));
    assert_eq!(error_metric_to_dop(1), (StoredMetric::Hdop, "HERR"));
    assert_eq!(error_metric_to_dop(9), (StoredMetric::Gdop, "GERR"));
}

#[test]
fn statistics_are_those_of_the_slider() {
    let values = vec![b(0.1), b(f32::NAN), b(0.4), b(f32::INFINITY), b(0.9), b(0.3)];
    let stats = slider_stats(&values, b(0.2), b(0.5));
    assert_eq!(stats.visible, vec![2, 5]);
    assert_eq!((f32::from_bits(stats.least), f32::from_bits(stats.greatest)), (0.3, 0.4));
    assert_eq!(stats.finite, 4);
    let none = slider_stats(&values, b(5.0), b(6.0));
    assert_eq!(f32::from_bits(none.least), f32::INFINITY);
    assert_eq!(f32::from_bits(none.greatest), f32::NEG_INFINITY);
    assert_eq!(shown_bound(none.least), 0);
    assert_eq!(shown_bound(stats.least), b(0.3));
    assert_eq!(shown_voxels(3, Some(&vec![true, false, true]), false), vec![0, 2]);
    assert_eq!(shown_voxels(3, Some(&vec![true, false, true]), true), vec![0, 1, 2]);
    assert_eq!(shown_voxels(2, None, false), vec![0, 1]);
}

#[test]
fn importing_base_stations_keeps_earlier_drags() {
    let mut e = StationEditor::new();
    e.load(vec![station(1.0), station(2.0)]);
    e.view_mouse_pressed(None, 1);
    e.view_mouse_pressed(Some(Handle::TranslateX), 0);
    e.view_mouse_moved(Some(b(7.0)));
    e.view_mouse_released();
    e.import(vec![station(5.0)]);
    assert_eq!((e.stations.len(), e.drawn.len(), e.selected), (1, 1, -1));
    assert_eq!(e.stations[0].pos, station(5.0).pos);
    e.undo();
    assert_eq!(e.stations.iter().map(|bs| bs.pos[0]).collect::<Vec<_>>(), vec![b(1.0), b(2.0)]);
}

#[test]
fn dragging_a_base_station_can_be_undone() {
    let mut e = StationEditor::new();
    e.load(vec![station(1.0), station(2.0)]);
    e.view_mouse_pressed(None, 1);
    assert_eq!(e.selected, 1);
    e.view_mouse_pressed(Some(Handle::TranslateX), 0);
    assert_eq!((e.selected, e.active), (1, Some(Handle::TranslateX)));
    e.view_mouse_moved(Some(b(7.0)));
    e.view_mouse_moved(None);
    assert_eq!(e.stations[1].pos, [b(7.0), b(1.0), b(2.0)]);
    assert_eq!(e.drawn[1].pos, [b(7.0), b(1.0), b(2.0)]);
    assert_eq!(e.stations[0].pos, station(1.0).pos);
    e.view_mouse_released();
    e.view_mouse_moved(Some(b(9.0)));
    assert_eq!(e.stations[1].pos[0], b(7.0));
    e.undo();
    assert_eq!(e.stations[1].pos[0], b(2.0));
    e.undo();
    e.view_mouse_pressed(Some(Handle::RotateElevation), -1);
    e.view_mouse_moved(Some(b(123.0)));
    assert_eq!(f32::from_bits(e.stations[1].elevation_deg), 90.0);
    e.view_mouse_moved(Some(b(-91.0)));
    assert_eq!(f32::from_bits(e.stations[1].elevation_deg), -90.0);
    assert_eq!(clamp_elevation(b(45.0)), b(45.0));
}

#[test]
fn base_stations_are_added_and_removed() {
    let mut e = StationEditor::new();
    e.add_bs();
    assert_eq!(e.stations[0].pos.map(f32::from_bits), [4.0, 4.0, 3.0]);
    assert_eq!(f32::from_bits(added_station().elevation_deg), 45.0);
    assert!(e.drawn.is_empty());
    e.redraw();
    assert_eq!(e.drawn.len(), 1);
    e.update_bs(0, station(3.0));
    e.update_bs(5, station(9.0));
    assert_eq!(e.stations[0].pos[0], b(3.0));
    e.remove_bs(-1);
    e.remove_bs(1);
    assert_eq!(e.stations.len(), 1);
    e.remove_bs(0);
    assert!(e.stations.is_empty());
}

#[test]
fn adding_and_removing_anchors_can_be_undone() {
    let mut e = AnchorEditor::new();
    e.load(vec![Anchor { pos: [1, 1, 1] }, Anchor { pos: [2, 2, 2] }]);
    e.redraw();
    e.add_anchor();
    assert_eq!(e.anchors[2].pos.map(f32::from_bits), [0.0, 0.0, 2.5]);
    assert_eq!(added_anchor().pos, e.anchors[2].pos);
    e.remove_anchor(0);
    e.remove_anchor(9);
    assert_eq!(e.anchors.len(), 2);
    e.undo();
    assert_eq!(e.anchors.len(), 3);
    e.undo();
    assert_eq!(e.anchors.iter().map(|a| a.pos[0]).collect::<Vec<_>>(), [1, 2]);
    e.undo();
    assert_eq!(e.anchors.len(), 2);
    e.view_mouse_pressed(None, 1);
    e.view_mouse_pressed(Some(Handle::TranslateZ), 0);
    e.view_mouse_moved(Some(8));
    assert_eq!(e.anchors[1].pos, [2, 2, 8]);
    assert_eq!(e.drawn[1].pos, [2, 2, 8]);
    e.view_mouse_released();
    e.update_anchor(0, Anchor { pos: [5, 5, 5] });
    assert_eq!(e.anchors[0].pos, [5, 5, 5]);
    e.view_mouse_pressed(Some(Handle::RotateYaw), 0);
    e.view_mouse_moved(Some(9));
    assert_eq!(e.anchors[1].pos, [2, 2, 8]);
}

#[test]
fn a_planned_room_is_edited() {
    let mut e = PlanningEditor::new();
    e.load(PlannedRoom { stations: vec![station(1.0)], anchors: vec![Anchor { pos: [1, 1, 1] }], obstacles: vec![] });
    e.add_obstacle(ObstacleKind::Box);
    e.add_obstacle(ObstacleKind::Cylinder);
    assert_eq!(e.room.obstacles[1].pos.map(f32::from_bits), [2.0, 2.0, 0.5]);
    assert_eq!(e.room.obstacles[1].kind, ObstacleKind::Cylinder);
    e.view_mouse_pressed(Some(Handle::TranslateX), -1, -1, 1);
    assert_eq!(e.selection, Selection::Obstacle(1));
    assert!(e.active.is_none());
    e.view_mouse_pressed(Some(Handle::RotateYaw), 0, 0, 0);
    e.view_mouse_moved(b(30.0));
    assert_eq!(f32::from_bits(e.room.obstacles[1].yaw_deg), 30.0);
    assert_eq!(e.room.obstacles[0].yaw_deg, 0);
    e.view_mouse_released();
    e.view_mouse_pressed(None, 0, 0, 0);
    assert_eq!(e.selection, Selection::Station(0));
    e.view_mouse_pressed(Some(Handle::TranslateY), -1, -1, -1);
    e.view_mouse_moved(b(6.0));
    assert_eq!(f32::from_bits(e.room.stations[0].pos[1]), 6.0);
    e.view_mouse_released();
    e.view_mouse_pressed(None, -1, 0, 0);
    assert_eq!(e.selection, Selection::Anchor(0));
    e.view_mouse_pressed(None, -1, -1, -1);
    assert_eq!(e.selection, Selection::Nothing);
    e.duplicate_bs(0, b(1.5));
    e.duplicate_anchor(0, 9);
    e.duplicate_obstacle(7, 0);
    assert_eq!(f32::from_bits(e.room.stations[1].pos[0]), 1.5);
    assert_eq!(e.room.anchors[1].pos, [9, 1, 1]);
    assert_eq!(e.room.obstacles.len(), 2);
    e.duplicate_obstacle(0, b(2.5));
    assert_eq!(f32::from_bits(e.room.obstacles[2].pos[0]), 2.5);
    let mut typed = Obstacle::new_box([1, 2, 3]);
    e.update_obstacle(0, typed, b(0.75));
    assert_eq!(e.room.obstacles[0].pos, [1, 2, b(0.75)]);
    typed.on_floor = false;
    e.update_obstacle(0, typed, b(0.75));
    assert_eq!(e.room.obstacles[0].pos, [1, 2, 3]);
    e.remove_obstacle(0);
    e.remove_bs(0);
    e.remove_anchor(0);
    assert_eq!((e.room.stations.len(), e.room.anchors.len(), e.room.obstacles.len()), (1, 1, 2));
    e.add_bs();
    e.add_anchor();
    e.update_bs(1, station(4.0));
    e.update_anchor(1, Anchor { pos: [7, 7, 7] });
    assert_eq!(e.room.anchors[1].pos, [7, 7, 7]);
    e.import_stations(vec![]);
    e.import_anchors(vec![]);
    assert!(e.room.stations.is_empty() && e.room.anchors.is_empty());
    assert!(e.begin_recompute());
    assert!(!e.begin_recompute());
    e.finish_recompute();
    assert!(e.begin_recompute());
    assert_eq!(kind_from_name("Cylinder"), ObstacleKind::Cylinder);
    assert_eq!(kind_from_name("cone"), ObstacleKind::Box);
    assert_eq!(kind_name(ObstacleKind::Box), "Box");
}
