//! The plot and the logging that fills it.

use swarmkeeper::logging::{
    block_period, chunk_by_bytes, config_file_name, config_position, contains_name, default_period_ms,
    is_config_extension, known_variables, log_configs_dir, not_connected_text, period_of_entry, prepare_slots,
    record_packet, resolve_and_start, run_plot_log, sanitize_file_name, select_config, sort_log_configs, stream_config,
    start_period_ms, streaming_status_text, LogConfig, StartRequest, StreamAction, StreamEvent, TocPicker,
    VariableType, BLOCK_BUDGET_BYTES,
};
use swarmkeeper::plot::{
    absolute_double, clear_hover, color_for, decimals_for_step, decimate, hover_pick, hover_picks, hover_reference, is_over_plot,
    minutes_seconds, nice_step, plot_hover, plot_nav_drag, plot_nav_press, plot_pan_move, plot_pan_start, plot_rebuild_started,
    plot_reset, plot_size_changed, plot_toggle_series, plot_zoom, rebuild_plot, series_y_range, summary_text,
    time_form, y_axis_label, HoverPick, LegendEntry, PlotSlot, PlotState, SeriesPoint, TimeForm, HUNDREDTH,
    MAX_POINTS, SIXTY, TEN, TENTH, THOUSANDTH,
};

fn point(ts_ms: i64, value: f64) -> SeriesPoint {
    SeriesPoint { ts_ms, value: value.to_bits() }
}

fn slot(name: &str, active: bool, series: Vec<SeriesPoint>) -> PlotSlot {
    PlotSlot { name: name.to_string(), group: "g".to_string(), color: [1, 2, 3], active, series }
}

fn state_with(slots: Vec<PlotSlot>) -> PlotState {
    let mut state = PlotState::new();
    state.slots = slots;
    state
}

fn config(name: &str, variables: &[&str], period_ms: u64) -> LogConfig {
    LogConfig {
        name: name.to_string(),
        description: None,
        variables: variables.iter().map(|v| v.to_string()).collect(),
        period_ms,
    }
}

fn names(list: &[&str]) -> Vec<String> {
    list.iter().map(|v| v.to_string()).collect()
}

#[test]
fn a_series_keeps_its_newest_points() {
    let mut s = slot("a", true, Vec::new());
    s.push(1, 5);
    s.push(2, 6);
    assert_eq!(s.series.len(), 2);
    assert_eq!((s.series[1].ts_ms, s.series[1].value), (2, 6));
    let mut full = slot("b", true, vec![point(0, 0.0); MAX_POINTS]);
    full.push(77, 1);
    assert_eq!(full.series.len(), MAX_POINTS);
    assert_eq!(full.series[MAX_POINTS - 1].ts_ms, 77);
}

#[test]
fn colours_repeat() {
    assert_eq!(color_for(0), [0x42, 0x9b, 0xf5]);
    assert_eq!(color_for(9), [0xec, 0x40, 0x7a]);
    assert_eq!(color_for(12), color_for(2));
}

#[test]
fn dragging_the_plot_moves_the_view() {
    let mut state = PlotState::new();
    assert!(!plot_pan_move(&mut state, 5, 0, 1));
    plot_zoom(&mut state, 1000, 500);
    assert_eq!((state.view.x_min_ms, state.view.x_max_ms, state.view.user_view), (1000, 1500, true));
    plot_pan_start(&mut state);
    assert!(plot_pan_move(&mut state, -200, 3, 4));
    assert_eq!((state.view.x_min_ms, state.view.x_max_ms), (800, 1300));
    assert_eq!((state.view.y_min_frac, state.view.y_max_frac), (3, 4));
    assert!(plot_pan_move(&mut state, 100, 3, 4));
    assert_eq!((state.view.x_min_ms, state.view.x_max_ms), (1100, 1600));
    plot_reset(&mut state);
    assert_eq!((state.view.x_min_ms, state.view.x_max_ms, state.view.user_view), (0, 0, false));
    assert!(state.view.pan_start.is_none());
    assert_eq!(f32::from_bits(state.view.y_max_frac), 1.0);
}

#[test]
fn toggling_a_series_twice_changes_nothing() {
    let mut state = state_with(vec![slot("a", true, vec![]), slot("b", false, vec![])]);
    plot_toggle_series(&mut state, 1);
    assert!(state.slots[1].active);
    plot_toggle_series(&mut state, 1);
    assert!(!state.slots[1].active);
    plot_toggle_series(&mut state, -1);
    plot_toggle_series(&mut state, 2);
    assert!(state.slots[0].active && !state.slots[1].active);
}

#[test]
fn the_navigator_moves_the_view() {
    let mut state = PlotState::new();
    assert!(!plot_nav_press(&mut state, false, 10, 20, 1));
    state.view.data_t_max_ms = 1000;
    assert!(plot_nav_press(&mut state, false, 100, 50, 7));
    assert_eq!((state.view.x_min_ms, state.view.x_max_ms), (100, 150));
    assert_eq!(state.view.nav_drag_start, Some((100, 150, 7)));
    assert!(plot_nav_drag(&mut state, 25));
    assert_eq!((state.view.x_min_ms, state.view.x_max_ms), (125, 175));
    assert!(plot_nav_press(&mut state, true, 0, 0, 9));
    assert_eq!(state.view.nav_drag_start, Some((125, 175, 9)));
}

#[test]
fn a_new_size_schedules_one_rebuild() {
    let mut state = PlotState::new();
    assert!(!plot_size_changed(&mut state, 5, 6, true));
    assert!(plot_size_changed(&mut state, 5, 6, false));
    assert!(!plot_size_changed(&mut state, 7, 8, false));
    assert_eq!(state.px, (7, 8));
    plot_rebuild_started(&mut state);
    assert!(plot_size_changed(&mut state, 9, 9, false));
    state.dirty = true;
    assert!(state.take_dirty());
    assert!(!state.take_dirty());
}

#[test]
fn the_range_of_a_series() {
    let range = series_y_range(&[point(0, 3.0), point(1, f64::NAN), point(2, -4.5), point(3, 9.0)]);
    assert_eq!((f64::from_bits(range.0), f64::from_bits(range.1)), (-4.5, 9.0));
    let none = series_y_range(&[point(0, f64::NAN)]);
    assert_eq!((f64::from_bits(none.0), f64::from_bits(none.1)), (0.0, 1.0));
    let infinite = series_y_range(&[point(0, f64::INFINITY), point(1, 2.0)]);
    assert_eq!((f64::from_bits(infinite.0), f64::from_bits(infinite.1)), (0.0, 1.0));
    let empty = series_y_range(&[]);
    assert_eq!(f64::from_bits(empty.1), 1.0);
}

#[test]
fn decimals_and_times() {
    assert_eq!(f64::from_bits(TENTH), 0.1);
    assert_eq!(f64::from_bits(HUNDREDTH), 0.01);
    assert_eq!(f64::from_bits(THOUSANDTH), 0.001);
    assert_eq!(f64::from_bits(TEN), 10.0);
    assert_eq!(f64::from_bits(SIXTY), 60.0);
    for (step, decimals) in [(2.0f64, 0), (1.0, 0), (-0.5, 1), (0.02, 2), (0.001, 3), (0.0005, 4), (f64::NAN, 4)] {
        assert_eq!(decimals_for_step(step.to_bits()), decimals, "{}", step);
    }
    assert_eq!(f64::from_bits(absolute_double((-2.5f64).to_bits())), 2.5);
    assert_eq!(time_form((-75.0f64).to_bits()), TimeForm::MinutesSeconds);
    assert_eq!(time_form(59.9f64.to_bits()), TimeForm::Whole);
    assert_eq!(time_form(1.0f64.to_bits()), TimeForm::Tenths);
    assert_eq!(time_form(0.5f64.to_bits()), TimeForm::Hundredths);
    assert_eq!(minutes_seconds(125), "2:05");
    assert_eq!(minutes_seconds(-61), "-1:01");
    assert_eq!(minutes_seconds(-59), "0:59");
}

#[test]
fn steps_are_nice() {
    for (n, multiple) in [(1.0, 1.0), (1.4, 2.0), (2.0, 2.0), (2.5, 5.0), (5.0, 5.0), (5.1, 10.0), (9.9, 10.0)] {
        let n: f64 = n;
        let multiple: f64 = multiple;
        assert_eq!(nice_step(n.to_bits()), multiple.to_bits(), "{}", n);
    }
}

#[test]
fn decimation_keeps_both_ends() {
    assert_eq!(decimate(3), vec![0, 1, 2]);
    let points = decimate(1202);
    assert_eq!(points[0], 0);
    assert_eq!(points[1], 3);
    assert_eq!(*points.last().unwrap(), 1201);
    assert!(points.len() <= 501);
    assert_eq!(decimate(500).len(), 500);
    assert_eq!(decimate(501).len(), 251);
}

#[test]
fn the_plot_is_planned() {
    let mut state = state_with(vec![
        slot("a", true, vec![point(10, 1.0), point(20, 2.0)]),
        slot("short", true, vec![point(0, 1.0)]),
        slot("off", false, vec![point(5, 7.0), point(40, 8.0)]),
    ]);
    let plan = rebuild_plot(&mut state).unwrap();
    assert_eq!(plan.lines.len(), 1);
    assert_eq!(plan.lines[0].slot, 0);
    assert_eq!(plan.lines[0].points, vec![0, 1]);
    assert_eq!(plan.legend.iter().map(|e| (e.slot, e.enabled)).collect::<Vec<_>>(), vec![(0, true), (2, false)]);
    assert_eq!((plan.data_t_min_ms, plan.data_t_max_ms), (10, 20));
    assert_eq!(plan.total_points, 2);
    assert_eq!(plan.single, Some(0));
    assert_eq!((state.view.x_min_ms, state.view.x_max_ms), (10, 20));
    assert_eq!(y_axis_label(&state.slots, plan.single), "a");
    assert_eq!(y_axis_label(&state.slots, None), "(normalized)");
    state.slots[0].active = false;
    let hidden = rebuild_plot(&mut state).unwrap();
    assert_eq!((hidden.data_t_min_ms, hidden.data_t_max_ms), (5, 40));
    assert_eq!(hidden.lines.len(), 0);
    state.slots.clear();
    assert!(rebuild_plot(&mut state).is_none());
    assert_eq!(state.view.x_max_ms, 0);
}

#[test]
fn a_view_of_no_width_is_widened() {
    let mut state = state_with(vec![slot("a", true, vec![point(10, 1.0), point(10, 2.0)])]);
    rebuild_plot(&mut state).unwrap();
    assert_eq!((state.view.x_min_ms, state.view.x_max_ms), (10, 11));
}

#[test]
fn hovering_finds_the_neighbours() {
    let series = [point(10, 0.0), point(20, 1.0), point(30, 2.0)];
    assert_eq!(hover_pick(&series, 5), HoverPick::Sample(0));
    assert_eq!(hover_pick(&series, 10), HoverPick::Sample(0));
    assert_eq!(hover_pick(&series, 15), HoverPick::Between(0, 1));
    assert_eq!(hover_pick(&series, 20), HoverPick::Between(0, 1));
    assert_eq!(hover_pick(&series, 31), HoverPick::Sample(2));
    let slots = vec![
        slot("off", false, series.to_vec()),
        slot("on", true, series.to_vec()),
        slot("early", true, vec![point(-7, 0.0)]),
    ];
    assert_eq!(hover_picks(&slots, 25), vec![(1, HoverPick::Between(1, 2))]);
    assert_eq!(hover_reference(&slots), -7);
    assert_eq!(hover_reference(&vec![]), 0);
}

fn entry(label: &str, slot_index: usize) -> LegendEntry {
    LegendEntry {
        label: label.to_string(),
        color: [0, 0, 0],
        range: String::new(),
        hover_value: String::new(),
        slot_index,
        enabled: true,
    }
}

#[test]
fn the_tooltip_lists_the_values() {
    let mut legend = vec![entry("a", 4), entry("b", 1), entry("c", 2)];
    let updates = [(4, "1.5".to_string()), (2, "7".to_string()), (4, "other".to_string())];
    assert_eq!(plot_hover("2.0s", &mut legend, &updates), "t = 2.0s\na: 1.5\nc: 7");
    assert_eq!(legend[0].hover_value, "1.5");
    assert_eq!(legend[1].hover_value, "");
    assert!(clear_hover(&mut legend));
    assert_eq!(legend[0].hover_value, "");
    assert!(!clear_hover(&mut legend));
    assert_eq!(summary_text(2, 40, "1.5", "9.0"), "2 series · 40 pts · view 1.5s of 9.0s");
}

#[test]
fn names_become_file_names() {
    assert_eq!(sanitize_file_name("  My log/1 "), "My_log_1");
    assert_eq!(sanitize_file_name("é-_9"), "é-_9");
    assert_eq!(sanitize_file_name("   "), "log");
    assert_eq!(sanitize_file_name("../a\\b.c"), "___a_b_c");
    for name in ["  My log/1 ", " \t", "a. b", "log", "é-_9"] {
        let file = sanitize_file_name(name);
        assert_eq!(sanitize_file_name(&file), file);
        assert!(!file.contains(['/', '\\', '.']));
    }
    assert_eq!(config_file_name("a b"), "a_b.yaml");
    assert_eq!(log_configs_dir(), "log_configs");
    assert!(is_config_extension("yml") && is_config_extension("yaml") && !is_config_extension("YAML"));
    assert_eq!(default_period_ms(), 100);
}

#[test]
fn configurations_are_sorted_without_case() {
    let sorted =
        sort_log_configs(vec![config("beta", &[], 1), config("Alpha", &[], 2), config("ALPHA", &[], 3), config("Éa", &[], 4), config("éA", &[], 5)]);
    let order: Vec<u64> = sorted.iter().map(|c| c.period_ms).collect();
    assert_eq!(order, vec![2, 3, 1, 4, 5]);
    assert_eq!(config_position(&sorted, "beta"), Some(2));
    assert_eq!(config_position(&sorted, "Beta"), None);
}

#[test]
fn variables_are_packed_into_blocks() {
    let list = names(&["a", "b", "c", "d", "e"]);
    let types = vec![
        Some(VariableType::Double),
        Some(VariableType::U64),
        Some(VariableType::I64),
        Some(VariableType::U8),
        None,
    ];
    let chunks = chunk_by_bytes(&list, &types, BLOCK_BUDGET_BYTES);
    assert_eq!(chunks, vec![names(&["a", "b", "c"]), names(&["d", "e"])]);
    let all = [
        (VariableType::U8, 1),
        (VariableType::U16, 2),
        (VariableType::U32, 4),
        (VariableType::U64, 8),
        (VariableType::I8, 1),
        (VariableType::I16, 2),
        (VariableType::I32, 4),
        (VariableType::I64, 8),
        (VariableType::Half, 2),
        (VariableType::Single, 4),
        (VariableType::Double, 8),
    ];
    for (t, size) in all {
        let two = names(&["x", "y"]);
        let kinds = vec![Some(t), Some(t)];
        assert_eq!(chunk_by_bytes(&two, &kinds, 2 * size).len(), 1);
        assert_eq!(chunk_by_bytes(&two, &kinds, 2 * size - 1).len(), 2);
    }
    assert_eq!(chunk_by_bytes(&names(&["big"]), &vec![Some(VariableType::Double)], 3), vec![names(&["big"])]);
    assert!(chunk_by_bytes(&vec![], &vec![], 24).is_empty());
}

#[test]
fn periods_are_kept_in_range() {
    assert_eq!(start_period_ms(&config("a", &[], 3)), 10);
    assert_eq!(start_period_ms(&config("a", &[], 9999)), 2550);
    assert_eq!(start_period_ms(&config("a", &[], 120)), 120);
    assert!(block_period(10).is_ok() && block_period(120).is_ok());
    assert!(block_period(2559).is_ok());
    assert_eq!(block_period(9).err(), Some("Invalid log period (10..=2550 ms).".to_string()));
    assert_eq!(block_period(2560).err(), Some("Invalid log period (10..=2550 ms).".to_string()));
    for (entered, ms) in [(10.0f32, 10), (2550.0, 2550), (99.9, 99), (2550.5, 100), (9.99, 100), (f32::NAN, 100), (-50.0, 100), (1234.5, 1234)] {
        assert_eq!(period_of_entry(entered.to_bits()), ms, "{}", entered);
    }
}

#[test]
fn only_known_variables_are_logged() {
    let toc = names(&["pm.vbat", "state.x"]);
    assert!(contains_name(&toc, "state.x") && !contains_name(&toc, "state.y"));
    assert_eq!(known_variables(&names(&["state.x", "nope", "pm.vbat", "state.x"]), &toc), names(&["state.x", "pm.vbat", "state.x"]));
}

#[test]
fn resuming_a_configuration_keeps_its_slots() {
    let mut state = PlotState::new();
    let c = config("c", &["a", "b"], 100);
    prepare_slots(&mut state, &c, &names(&["a", "b"]));
    assert_eq!(state.slots.len(), 2);
    assert_eq!(state.slots[1].color, color_for(1));
    assert_eq!(state.slots[1].group, "c");
    record_packet(&mut state, 40, &vec![("b".to_string(), 5), ("zz".to_string(), 6)]);
    assert_eq!(state.slots[1].series.len(), 1);
    assert_eq!(state.slots[1].series[0].ts_ms, 40);
    prepare_slots(&mut state, &c, &names(&["b", "d"]));
    assert_eq!(state.slots.iter().map(|s| s.name.clone()).collect::<Vec<_>>(), names(&["a", "b", "d"]));
    assert_eq!(state.slots[1].series.len(), 1);
    prepare_slots(&mut state, &config("other", &[], 100), &names(&["b"]));
    assert_eq!(state.slots.len(), 1);
    assert_eq!(state.slots[0].series.len(), 0);
    assert_eq!(state.loaded_config, Some("other".to_string()));
}

#[test]
fn a_stream_is_set_up_block_by_block() {
    let mut state = PlotState::new();
    let c = config("c", &["a", "b", "gone"], 100);
    let types = vec![Some(VariableType::Double); 2];
    let (mut run, step) = run_plot_log(&mut state, &c, &names(&["a", "b"]), &types);
    assert_eq!(step.action, StreamAction::CreateBlock);
    assert_eq!(run.chunks, vec![names(&["a", "b"])]);
    assert_eq!(run.on_event(StreamEvent::BlockCreated).action, StreamAction::FillBlock(0));
    let listening = run.on_event(StreamEvent::BlockStarted(true));
    assert_eq!(listening.action, StreamAction::Listen);
    assert_eq!(listening.logging, Some(true));
    assert_eq!(listening.status, Some("Logging 2 var(s) @ 100 ms (1 not on TOC)".to_string()));
    let ended = run.on_event(StreamEvent::StreamsEnded);
    assert_eq!(ended.action, StreamAction::Stop);
    assert_eq!(ended.status, Some("Log stream ended.".to_string()));
    assert_eq!(streaming_status_text(1, 20, 0), "Logging 1 var(s) @ 20 ms");
}

#[test]
fn a_stream_takes_what_the_table_of_contents_holds() {
    let c = config("c", &["b", "gone", "a"], 5);
    let toc = names(&["a", "z", "b", "b"]);
    let wide = Some(VariableType::Double);
    let types = vec![wide, None, None, wide];
    let mut state = PlotState::new();
    let (run, step) = stream_config(&mut state, &c, &toc, &types);
    assert_eq!(step.action, StreamAction::CreateBlock);
    assert_eq!((run.variables, run.missing, run.period_ms), (2, 1, 10));
    assert_eq!(run.chunks, vec![names(&["b", "a"])]);
    assert_eq!(state.slots.iter().map(|s| s.name.clone()).collect::<Vec<_>>(), names(&["b", "a"]));
    let many: Vec<String> = (0..5).map(|i| format!("v{}", i)).collect();
    let all = LogConfig { variables: many.clone(), ..config("d", &[], 100) };
    let (wider, _) = stream_config(&mut PlotState::new(), &all, &many, &vec![wide; 5]);
    assert_eq!(wider.chunks.iter().map(Vec::len).collect::<Vec<_>>(), vec![3, 2]);
    let (narrow, _) = stream_config(&mut PlotState::new(), &all, &many, &vec![Some(VariableType::U8); 5]);
    assert_eq!(narrow.chunks.len(), 1);
    let (none, over) = stream_config(&mut PlotState::new(), &c, &names(&["z"]), &vec![None]);
    assert_eq!((none.variables, over.action), (0, StreamAction::Stop));
}

#[test]
fn the_cursor_is_over_the_plot_or_beside_it() {
    for (at, over) in [(0.0f32, true), (-0.0, true), (0.5, true), (1.0, true), (1.001, false), (-0.001, false)] {
        assert_eq!(is_over_plot(at.to_bits()), over);
    }
    assert!(!is_over_plot(f32::NAN.to_bits()) && !is_over_plot(f32::INFINITY.to_bits()));
}

#[test]
fn a_stream_that_cannot_start_says_why() {
    let mut state = PlotState::new();
    let c = config("c", &["a"], 100);
    let (_, none) = run_plot_log(&mut state, &c, &vec![], &vec![]);
    assert_eq!(none.status, Some("None of the config's variables exist on this unit's TOC.".to_string()));
    assert_eq!(none.logging, Some(false));
    assert!(state.loaded_config.is_none());
    let (mut run, _) = run_plot_log(&mut state, &c, &names(&["a"]), &vec![None]);
    let refused = run.on_event(StreamEvent::BlockRefused("full".to_string()));
    assert_eq!(refused.status, Some("create_block failed: full".to_string()));
    let failed = run.on_event(StreamEvent::BlockStarted(false));
    assert_eq!(failed.status, Some("Failed to start any log blocks.".to_string()));
    assert_eq!(failed.action, StreamAction::Stop);
}

#[test]
fn starting_needs_a_configuration_and_a_unit() {
    assert!(matches!(resolve_and_start(1, 2, Some(5)), StartRequest::Start { config: 1, unit: 5 }));
    match resolve_and_start(2, 2, Some(5)) {
        StartRequest::Refused(message) => assert_eq!(message, "Pick or create a log config first."),
        _ => panic!(),
    }
    match resolve_and_start(-1, 2, None) {
        StartRequest::Refused(message) => assert_eq!(message, "Pick or create a log config first."),
        _ => panic!(),
    }
    match resolve_and_start(0, 2, None) {
        StartRequest::Refused(message) => assert_eq!(message, "Select a unit, then Start."),
        _ => panic!(),
    }
    assert_eq!(not_connected_text(), "Selected unit is not connected.");
}

#[test]
fn choosing_another_configuration_empties_the_plot() {
    let mut state = state_with(vec![slot("a", true, vec![])]);
    state.loaded_config = Some("c".to_string());
    assert!(!select_config(&mut state, &Some("c".to_string())));
    assert_eq!(state.slots.len(), 1);
    assert!(select_config(&mut state, &Some("d".to_string())));
    assert!(state.slots.is_empty() && state.loaded_config.is_none() && state.dirty);
    assert!(!select_config(&mut state, &None));
}

#[test]
fn variables_are_picked_from_the_table_of_contents() {
    let mut picker = TocPicker::new();
    assert_eq!(picker.status(0), "No variables");
    picker.load(names(&["state.Y", "pm.vbat", "State.x"]));
    picker.set_filter("STATE".to_string());
    picker.toggle("state.Y".to_string());
    picker.toggle("pm.vbat".to_string());
    let rows = picker.rows();
    assert_eq!(rows.iter().map(|r| (r.name.clone(), r.checked)).collect::<Vec<_>>(), vec![("State.x".to_string(), false), ("state.Y".to_string(), true)]);
    assert_eq!(picker.status(rows.len()), "2 shown · 2 selected");
    let made = picker.new_config("  mine ", 50.0f32.to_bits()).unwrap();
    assert_eq!(made.name, "mine");
    assert_eq!(made.variables, names(&["pm.vbat", "state.Y"]));
    assert_eq!(made.period_ms, 50);
    assert_eq!(picker.new_config(" ", 0).err(), Some("Enter a name.".to_string()));
    picker.toggle("state.Y".to_string());
    picker.toggle("pm.vbat".to_string());
    assert_eq!(picker.new_config("x", 0).err(), Some("Select at least one variable.".to_string()));
    picker.reset();
    assert!(picker.rows().is_empty());
}
