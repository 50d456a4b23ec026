//! The units of a swarm: their table, telemetry, journal, positions and the operations on them.

use swarmkeeper::journal::{journal_path, JournalEntry, JournalStore};
use swarmkeeper::manual_control::{
    apply_deadzone, first_joystick, joystick_at, map_joystick_axes, next_control_step, ControlStep, Sticks, DEADZONE,
};
use swarmkeeper::operations::{
    identify_color, is_test_report, next_flight_step, next_identify_step, parse_tuning_value, IdentifyStep, progress_text, set_test_result,
    timed_out_text, waiting_result, FileTocCache, FlightStep, Progress, PropTest,
};
use swarmkeeper::positioning::{is_set, sample_trajectory, PositioningData, TrajectoryData, SINGLE_HALF};
use swarmkeeper::telemetry::{
    derive_unit_state, LinkStatistics, Telemetry, TelemetryAction, TelemetryEvent, TelemetryPhase, TelemetrySample,
};
use swarmkeeper::units::{
    apply_swarm_config, bool_check, is_offline, low_bits, mark_connected, mark_connection_lost, mark_disconnected,
    mark_disconnected_for_test, mark_error, mark_powered_down, offline_units, pm_state_text, rebuild_table_rows,
    serial_number, sort_unit_indices, source_after_connect, source_after_disconnect, state_symbol, state_text,
    supervisor_text, unit_at_row, unit_from_config, unit_to_row, wants_platform_info, RowTexts, SwarmConfig, UnitConfig, UnitData,
    UnitParameters, UnitState,
};

fn unit(name: &str) -> UnitData {
    unit_from_config(&UnitConfig { uri: "radio://0/80/2M/E7".to_string(), name: name.to_string(), description: None })
}

#[test]
fn a_swarm_is_shown() {
    let config = SwarmConfig {
        name: "demo".to_string(),
        description: None,
        units: vec![
            UnitConfig { uri: "radio://0/80/2M/01".to_string(), name: "one".to_string(), description: Some("d".to_string()) },
            UnitConfig { uri: "usb://0?timeout=5".to_string(), name: "two".to_string(), description: None },
        ],
    };
    let screen = apply_swarm_config(&config);
    assert_eq!(screen.name, "demo");
    assert_eq!(screen.unit_names, vec!["one".to_string(), "two".to_string()]);
    assert_eq!(screen.wizard_unit, Some(0));
    assert_eq!(screen.units[0].uri, "radio://0/80/2M/01?timeout=2000");
    assert_eq!(screen.units[0].description, "d");
    assert_eq!(screen.units[1].uri, "usb://0?timeout=5");
    assert_eq!(screen.units[1].state, UnitState::Disconnected);
    let empty = apply_swarm_config(&SwarmConfig { name: String::new(), description: None, units: vec![] });
    assert_eq!(empty.wizard_unit, None);
}

#[test]
fn states_have_names_and_symbols() {
    assert_eq!(state_symbol(UnitState::Flying), "▲");
    assert_eq!(state_text(UnitState::Crashed), "Crashed");
    assert_eq!(pm_state_text(3), "Low power");
    assert_eq!(pm_state_text(-1), "Unknown");
    assert_eq!(supervisor_text(0), "Idle");
    assert_eq!(supervisor_text(0b1001_0010), "Crashed, Flying, Armed");
    assert_eq!(supervisor_text(0b0110_0000), "Locked, Tumbled");
    assert_eq!(supervisor_text(-1), "Crashed, Locked, Tumbled, Flying, Armed");
    assert_eq!(supervisor_text(0x7fff_0d), "Idle");
    for (x, y) in [(0x12, 0x1_0012), (0x12, 0x10), (0x80, 0x82), (-1, 0xf2), (0x40, 0x20)] {
        assert_eq!(supervisor_text(x) == supervisor_text(y), (x ^ y) & 0xf2 == 0);
    }
    assert_eq!(low_bits(-1), 0xffff);
    assert_eq!(low_bits(0x12345), 0x2345);
    assert_eq!(bool_check(true), "✓");
    assert_eq!(bool_check(false), "");
}

#[test]
fn a_unit_connects_and_is_lost() {
    let mut u = unit("a");
    mark_connected(
        &mut u,
        &UnitParameters {
            deck_lighthouse: 1,
            deck_loco: 0,
            deck_led_top: 0,
            deck_led_bottom: 2,
            selftest_passed: 1,
            cpu_id: (0x1, 0xabcdef01, 0),
        },
        3,
    );
    assert_eq!(u.state, UnitState::Connected);
    assert_eq!(u.serial, "00000001ABCDEF0100000000");
    assert!(u.deck_lighthouse && !u.deck_loco && u.deck_led_bottom && u.selftest_passed);
    assert_eq!(u.journal_entry_count, 3);
    let mut off = u.clone();
    mark_powered_down(&mut off);
    assert!(off.state == UnitState::Disconnected && off.serial.is_empty() && off.deck_lighthouse);
    let mut gone = u.clone();
    mark_disconnected(&mut gone);
    assert!(!gone.deck_lighthouse);
    u.supervisor_info = 5;
    u.rssi = 7;
    let mut tested = u.clone();
    mark_disconnected_for_test(&mut tested);
    assert_eq!((tested.supervisor_info, tested.rssi), (0, 7));
    mark_connection_lost(&mut u);
    assert_eq!((u.supervisor_info, u.rssi, u.has_rssi), (0, 0, false));
    mark_error(&mut u, "bad");
    assert!(u.state == UnitState::Error && u.error_message == "bad" && is_offline(u.state));
    assert!(wants_platform_info(&u) && !wants_platform_info(&gone));
    u.platform_type = "CF21".to_string();
    assert!(!wants_platform_info(&u));
    assert_eq!(serial_number((0, 0, 0x1f)), "00000000000000000000001F");
}

#[test]
fn offline_units_are_connected_again() {
    let mut units = vec![unit("a"), unit("b"), unit("c")];
    units[1].state = UnitState::Flying;
    units[2].state = UnitState::Error;
    assert_eq!(offline_units(&units), vec![0, 2]);
    assert_eq!(source_after_connect(None, 4), Some(4));
    assert_eq!(source_after_connect(Some(1), 4), Some(1));
    assert_eq!(source_after_disconnect(Some(4), 4), None);
    assert_eq!(source_after_disconnect(Some(1), 4), Some(1));
}

#[test]
fn the_table_shows_a_row_per_unit() {
    let mut u = unit("a");
    u.state = UnitState::Error;
    u.error_message = "lost".to_string();
    u.deck_loco = true;
    let t = RowTexts {
        pos_x: "1.00".to_string(),
        pos_y: "2.00".to_string(),
        pos_z: "-3.00".to_string(),
        battery: "3.9".to_string(),
        link_percent: 97,
    };
    let row = unit_to_row(&u, &t);
    let expected =
        ["✕", "lost", "a", "radio://0/80/2M/E7?timeout=2000", "1.00", "2.00", "-3.00", "3.9V", "97%", "", "Idle", "", "✓", "", ""];
    assert_eq!(row, expected.iter().map(|s| s.to_string()).collect::<Vec<_>>());
}

#[test]
fn the_table_is_sorted_stably() {
    let mut units = vec![unit("b"), unit("a"), unit("c"), unit("a")];
    units[0].battery_voltage = 3.9f32.to_bits();
    units[1].battery_voltage = 4.1f32.to_bits();
    units[2].battery_voltage = 3.9f32.to_bits();
    units[3].battery_voltage = (-1.0f32).to_bits();
    units[2].state = UnitState::Charged;
    assert_eq!(sort_unit_indices(&units, -1, true), vec![0, 1, 2, 3]);
    assert_eq!(sort_unit_indices(&units, 2, true), vec![1, 3, 0, 2]);
    assert_eq!(sort_unit_indices(&units, 2, false), vec![2, 0, 1, 3]);
    assert_eq!(sort_unit_indices(&units, 7, true), vec![3, 0, 2, 1]);
    assert_eq!(sort_unit_indices(&units, 0, false), vec![2, 0, 1, 3]);
    assert_eq!(sort_unit_indices(&units, 99, true), vec![0, 1, 2, 3]);
    let order = sort_unit_indices(&units, 2, true);
    assert_eq!(unit_at_row(&order, 2), Some(0));
    assert_eq!(unit_at_row(&order, 4), None);
    assert_eq!(unit_at_row(&order, -1), None);
}

#[test]
fn units_are_counted() {
    let mut units = vec![unit("a"), unit("b"), unit("c"), unit("d")];
    units[0].state = UnitState::Flying;
    units[0].selftest_passed = true;
    units[1].state = UnitState::Charging;
    units[2].state = UnitState::Charged;
    units[3].selftest_passed = true;
    let c = rebuild_table_rows(&units);
    assert_eq!((c.connected, c.selftest_passed, c.battery, c.charging, c.charged), (3, 1, 1, 1, 1));
}

fn nothing() -> TelemetrySample {
    TelemetrySample {
        x: None,
        y: None,
        z: None,
        battery_voltage: None,
        pm_state: None,
        supervisor_info: None,
        lighthouse_active: None,
        ranging_state: None,
    }
}

fn no_link() -> LinkStatistics {
    LinkStatistics { link_quality: None, uplink_rate: None, downlink_rate: None, radio_send_rate: None, avg_retries: None, rssi: None }
}

#[test]
fn telemetry_updates_its_unit() {
    let mut u = unit("a");
    let mut t = Telemetry::new();
    let mut asked = Vec::new();
    loop {
        match t.action() {
            TelemetryAction::CreateBlock => t.start_telemetry(&mut u, &TelemetryEvent::Done),
            TelemetryAction::AddVariable(v) => {
                let event = if v == "ranging.state" { TelemetryEvent::Failed("no".to_string()) } else { TelemetryEvent::Done };
                asked.push(v);
                t.start_telemetry(&mut u, &event);
            }
            TelemetryAction::Start(ms) => {
                assert_eq!(ms, 100);
                t.start_telemetry(&mut u, &TelemetryEvent::Done);
            }
            TelemetryAction::Listen => break,
            TelemetryAction::Stop => panic!(),
        }
    }
    assert_eq!(
        asked,
        ["stateEstimate.x", "stateEstimate.y", "stateEstimate.z", "pm.vbat", "pm.state", "supervisor.info", "lighthouse.bsActive", "ranging.state"]
    );
    assert!(t.has_supervisor_info && t.has_lh_active && !t.has_ranging_state);
    let sample = TelemetrySample {
        x: Some(7),
        pm_state: Some(1),
        supervisor_info: Some(0b10010),
        lighthouse_active: Some(3),
        ranging_state: Some(9),
        ..nothing()
    };
    let link = LinkStatistics { rssi: Some(60), ..no_link() };
    assert_eq!(t.received(&sample), (3, 0));
    t.start_telemetry(&mut u, &TelemetryEvent::Sample(sample, link));
    assert_eq!((u.pos_x, u.pos_y, u.rssi, u.has_rssi), (7, 0, 60, true));
    assert_eq!((u.pm_state.as_str(), u.supervisor_state.as_str()), ("Charging", "Flying, Armed"));
    assert_eq!(u.state, UnitState::Flying);
    t.start_telemetry(&mut u, &TelemetryEvent::Ended);
    assert_eq!(u.state, UnitState::Disconnected);
    assert_eq!(t.phase, TelemetryPhase::Ended);
    assert!(matches!(t.action(), TelemetryAction::Stop));
}

#[test]
fn telemetry_that_cannot_start_is_an_error() {
    let mut u = unit("a");
    let mut t = Telemetry::new();
    t.start_telemetry(&mut u, &TelemetryEvent::Failed("no block".to_string()));
    assert_eq!(u.error_message, "no block");
    let mut u = unit("a");
    let mut t = Telemetry::new();
    t.start_telemetry(&mut u, &TelemetryEvent::Done);
    t.start_telemetry(&mut u, &TelemetryEvent::Failed("x".to_string()));
    assert_eq!(u.error_message, "Failed to add log variables");
    assert_eq!(u.state, UnitState::Error);
    let mut t = Telemetry { phase: TelemetryPhase::Starting, has_supervisor_info: false, has_lh_active: false, has_ranging_state: false };
    t.start_telemetry(&mut u, &TelemetryEvent::Failed("late".to_string()));
    assert_eq!(u.error_message, "late");
}

#[test]
fn the_state_follows_from_the_sample() {
    assert_eq!(derive_unit_state(true, 0b1001_0000, 1), UnitState::Crashed);
    assert_eq!(derive_unit_state(true, 0b0001_0000, 1), UnitState::Flying);
    assert_eq!(derive_unit_state(false, 0b1001_0000, 1), UnitState::Charging);
    assert_eq!(derive_unit_state(true, 0, 2), UnitState::Charged);
    assert_eq!(derive_unit_state(true, 0, 0), UnitState::Connected);
}

fn texts(list: &[JournalEntry]) -> Vec<String> {
    list.iter().map(|e| e.text.clone()).collect()
}

#[test]
fn the_journal_shows_the_latest_note_first() {
    let mut store = JournalStore::new();
    assert!(!store.add_entry("", "t".to_string(), "x".to_string()));
    assert!(!store.add_entry("A", "t".to_string(), "".to_string()));
    for n in ["one", "two", "three"] {
        assert!(store.add_entry("A", "t".to_string(), n.to_string()));
    }
    assert_eq!(texts(&store.shown("A")), ["three", "two", "one"]);
    assert_eq!(store.count("A"), 3);
    assert_eq!(store.count("B"), 0);
    assert!(store.delete_entry("A", 0));
    assert_eq!(texts(&store.shown("A")), ["two", "one"]);
    assert!(store.delete_entry("A", 99));
    assert_eq!(texts(&store.shown("A")), ["two"]);
    assert!(!store.delete_entry("B", 0));
    store.load_unit("B".to_string(), vec![JournalEntry { timestamp: "t".to_string(), text: "old".to_string() }]);
    assert_eq!(texts(&store.shown("B")), ["old"]);
    store.load_unit("A".to_string(), vec![]);
    assert_eq!(store.count("A"), 0);
    assert!(!journal_path().is_empty());
}

#[test]
fn anchors_that_were_seen_stay_on_the_map() {
    let mut data = PositioningData::new();
    data.store(vec![(0, [1, 1, 1]), (5, [2, 2, 2])], vec![(1, [3, 3, 3]), (2, [4, 4, 4])]);
    data.store(vec![(0, [1, 1, 1]), (5, [2, 2, 2])], vec![(2, [5, 5, 5])]);
    data.set_active(0b10_0000, 7);
    let lighthouse = data.lighthouse_points();
    assert_eq!(lighthouse.iter().map(|p| p.bright).collect::<Vec<_>>(), [false, true]);
    let loco = data.loco_points();
    assert_eq!(loco.len(), 2);
    assert!(loco[0].bright && loco[0].pos == [5, 5, 5]);
    assert!(!loco[1].bright && loco[1].pos == [3, 3, 3]);
    assert!(is_set(0b101, 2) && !is_set(0b101, 1) && !is_set(0xffff, 16));
}

#[test]
fn a_trajectory_comes_back_after_take_off() {
    let steps = sample_trajectory(2);
    assert_eq!(steps.len(), 41);
    assert_eq!((steps[0], steps[20], steps[40]), ((0, 0), (1, 0), (1, 20)));
    assert!(sample_trajectory(0).is_empty());
    let mut t = TrajectoryData::new(vec![[1, 2, 3]], 4);
    assert_eq!(t.drawn_from(Some([6, 6, 6])), ([6, 6, 6], [1, 2, 3]));
    assert_eq!(TrajectoryData::new(vec![], 4).drawn_from(None), ([0, 0, 0], [0, 0, 0]));
    t.begin_takeoff([9, 9, 9]);
    assert_eq!(t.drawn_from(Some([6, 6, 6])), ([9, 9, 9], [0, 0, 0]));
    assert_eq!(t.points, vec![[0, 0, 0], [0, 0, SINGLE_HALF]]);
    assert_eq!(t.anchor, Some([9, 9, 9]));
    t.finish_takeoff([8, 8, 8]);
    assert_eq!(t.points, vec![[1, 2, 3]]);
    assert_eq!(t.anchor, Some([8, 8, 8]));
    assert!(t.saved_points.is_none());
    assert_eq!(t.drawn_from(None), ([8, 8, 8], [1, 2, 3]));
    assert_eq!(f32::from_bits(SINGLE_HALF), 0.5);
}

#[test]
fn tables_of_contents_have_their_files() {
    let cache = FileTocCache { cache_dir: "cache".to_string() };
    assert_eq!(cache.path_for(&[0x0a, 0xff]), "cache/0aff.json");
    assert_eq!(FileTocCache { cache_dir: "c/".to_string() }.path_for(&[1]), "c/01.json");
    assert_eq!(FileTocCache { cache_dir: String::new() }.path_for(&[]), ".json");
}

#[test]
fn progress_is_told() {
    let name = || "cf1".to_string();
    assert_eq!(progress_text(&Progress::Connecting(name()), 1, 3), "Connecting to cf1 (1/3)...");
    assert_eq!(progress_text(&Progress::GeometryFailed(name(), timed_out_text()), 2, 3), "Failed: cf1 - Connection timed out (2/3)");
    assert_eq!(progress_text(&Progress::GeometryUploaded(name()), 2, 3), "Uploaded to cf1 (2/3)");
    assert_eq!(progress_text(&Progress::TrajectoryUploaded, 2, 3), "Uploaded (2/3)");
    assert_eq!(progress_text(&Progress::TuningFailed(name()), 2, 3), "cf1 failed (2/3)");
    assert_eq!(progress_text(&Progress::TuningTimedOut(name()), 2, 3), "cf1 timed out (2/3)");
    assert_eq!(progress_text(&Progress::Tuned, 3, 3), "Done (3/3)");
    assert_eq!(progress_text(&Progress::Tested, 3, 3), "3/3 done");
}

#[test]
fn a_flight_ends_on_the_ground() {
    let mut step = FlightStep::Arm;
    let mut seen = vec![step];
    while step != FlightStep::Done {
        step = next_flight_step(step, step == FlightStep::Arm);
        seen.push(step);
    }
    assert_eq!(seen[seen.len() - 2], FlightStep::Land);
    assert_eq!(seen.len(), 10);
    assert_eq!(next_flight_step(FlightStep::Arm, false), FlightStep::Done);
}

#[test]
fn units_are_identified_and_tested() {
    assert_eq!([identify_color(0), identify_color(1), identify_color(2), identify_color(7)], [0xffffff, 0xff, 0xff0000, 0xff00]);
    let mut row = waiting_result("cf1");
    assert_eq!(row.status, "Waiting");
    set_test_result(&mut row, &PropTest::Reported(0b1011));
    assert_eq!((row.m1_pass, row.m2_pass, row.m3_pass, row.m4_pass), (true, true, false, true));
    assert_eq!(row.status, "Fail");
    set_test_result(&mut row, &PropTest::Reported(0xff));
    assert_eq!(row.status, "Pass");
    set_test_result(&mut row, &PropTest::TimedOut);
    assert!(row.status == "Timeout" && !row.m1_pass);
    set_test_result(&mut row, &PropTest::Failed);
    assert_eq!(row.status, "Error");
    assert!(is_test_report(1) && !is_test_report(0));
    assert_eq!(parse_tuning_value(" 1200\n"), Ok(1200));
    for typed in ["+65535", "65536", "x", " ", "+", "-1", "12a", "99999a", "007"] {
        match (parse_tuning_value(typed), typed.trim().parse::<u16>()) {
            (Ok(v), Ok(w)) => assert_eq!(v, w),
            (Err(reason), Err(e)) => assert_eq!(reason, e.to_string()),
            _ => panic!("{}", typed),
        }
    }
}

#[test]
fn identifying_ends_with_cleaning_up() {
    let mut step = IdentifyStep::TakeMotors;
    let mut seen = Vec::new();
    for stop in [false, false, false, false, true, false, false] {
        seen.push(step);
        step = next_identify_step(step, stop);
    }
    assert_eq!(
        seen,
        vec![
            IdentifyStep::TakeMotors,
            IdentifyStep::Blink(0),
            IdentifyStep::Pause(0),
            IdentifyStep::Blink(1),
            IdentifyStep::Pause(1),
            IdentifyStep::CleanUp,
            IdentifyStep::Done,
        ]
    );
    assert_eq!(next_identify_step(IdentifyStep::TakeMotors, true), IdentifyStep::CleanUp);
    assert_eq!(next_identify_step(IdentifyStep::Blink(3), true), IdentifyStep::CleanUp);
    assert_eq!(next_identify_step(IdentifyStep::Pause(usize::MAX), false), IdentifyStep::Blink(0));
    assert_eq!(next_identify_step(IdentifyStep::Done, false), IdentifyStep::Done);
}

#[test]
fn sticks_are_mapped() {
    let bits = |v: f32| v.to_bits();
    assert_eq!(f32::from_bits(DEADZONE), 0.1);
    for v in [0.05f32, -0.05, 0.1, -0.1, 0.5, -1.0, 0.0] {
        let expected = if v.abs() < 0.1 { 0.0 } else { v };
        assert_eq!(f32::from_bits(apply_deadzone(bits(v), DEADZONE)), expected);
    }
    let shares = map_joystick_axes(&Sticks { left_x: bits(0.4), left_y: bits(-0.8), right_x: bits(0.01), right_y: bits(-0.3) });
    assert_eq!(f32::from_bits(shares.roll), 0.0);
    assert_eq!(f32::from_bits(shares.pitch), -0.3);
    assert_eq!(f32::from_bits(shares.yawrate), 0.4);
    assert_eq!(f32::from_bits(shares.thrust), 0.0);
    let up = map_joystick_axes(&Sticks { left_x: 0, left_y: bits(0.8), right_x: 0, right_y: 0 });
    assert_eq!(f32::from_bits(up.thrust), 0.8);
    let broken = map_joystick_axes(&Sticks { left_x: 0, left_y: bits(f32::NAN), right_x: 0, right_y: 0 });
    assert_eq!(broken.thrust, 0);
}

#[test]
fn manual_control_ends_with_zero_thrust() {
    assert_eq!(next_control_step(ControlStep::Unlock, false), ControlStep::Done);
    let mut step = ControlStep::Unlock;
    let mut seen = Vec::new();
    let mut rounds = 0;
    while step != ControlStep::Done {
        let ok = match step {
            ControlStep::Check => true,
            ControlStep::Send => {
                rounds += 1;
                rounds < 3
            }
            ControlStep::Unlock => true,
            _ => false,
        };
        step = next_control_step(step, ok);
        seen.push(step);
    }
    assert_eq!(rounds, 3);
    assert_eq!(seen[seen.len() - 4..], [ControlStep::ZeroThrust, ControlStep::NotifyStop, ControlStep::CentreSticks, ControlStep::Done]);
    assert_eq!(first_joystick(0), None);
    assert_eq!(first_joystick(2), Some(0));
    assert_eq!(joystick_at(1, 2), Some(1));
    assert_eq!(joystick_at(2, 2), None);
    assert_eq!(joystick_at(-1, 2), None);
}
