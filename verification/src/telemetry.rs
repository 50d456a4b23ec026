//! Telemetry of a connected unit: setting up its log block, and what each sample and the end of
//! the stream change.

use crate::units::{mark_connection_lost, mark_error, pm_state_text, supervisor_text, UnitData, UnitState, UnitView};
use crate::units;
use vstd::prelude::*;
use vstd::string::*;

verus! {

/// The sample period in milliseconds.
pub const TELEMETRY_PERIOD_MS: u64 = 100;

/// The variables that every unit has to offer.
pub open spec fn required_variables() -> Seq<Seq<char>> {
    seq![
        "stateEstimate.x"@,
        "stateEstimate.y"@,
        "stateEstimate.z"@,
        "pm.vbat"@,
        "pm.state"@,
    ]
}

/// The variables that some firmware does not have.
pub open spec fn optional_variables() -> Seq<Seq<char>> {
    seq!["supervisor.info"@, "lighthouse.bsActive"@, "ranging.state"@]
}

/// Where the set-up of the telemetry stands.
#[derive(Debug, Clone, Copy, PartialEq, Eq, Structural)]
pub enum TelemetryPhase {
    /// Creating the log block.
    Creating,
    /// Adding the required variable at this position.
    Requiring(usize),
    /// Adding the optional variable at this position.
    Probing(usize),
    /// Starting the block.
    Starting,
    /// Taking samples.
    Listening,
    /// Over.
    Ended,
}

/// What the telemetry does next.
pub enum TelemetryAction {
    CreateBlock,
    AddVariable(String),
    /// Start the block with this period in milliseconds.
    Start(u64),
    /// Wait for a sample or the end of the stream.
    Listen,
    Stop,
}

/// What a sample of a unit holds; a value that is missing or of another type is absent. Measured
/// values are the bits of singles.
#[derive(Debug, Clone, Copy)]
pub struct TelemetrySample {
    pub x: Option<u32>,
    pub y: Option<u32>,
    pub z: Option<u32>,
    pub battery_voltage: Option<u32>,
    pub pm_state: Option<i8>,
    pub supervisor_info: Option<u16>,
    pub lighthouse_active: Option<u16>,
    pub ranging_state: Option<u16>,
}

/// The link statistics, as far as they are known.
#[derive(Debug, Clone, Copy)]
pub struct LinkStatistics {
    pub link_quality: Option<u32>,
    pub uplink_rate: Option<u32>,
    pub downlink_rate: Option<u32>,
    pub radio_send_rate: Option<u32>,
    pub avg_retries: Option<u32>,
    pub rssi: Option<u32>,
}

/// What happened to the telemetry.
pub enum TelemetryEvent {
    /// The action was done.
    Done,
    /// The action failed, for this reason.
    Failed(String),
    /// A sample arrived, and these are the link statistics.
    Sample(TelemetrySample, LinkStatistics),
    /// The stream ended.
    Ended,
}

/// The telemetry of one unit.
#[derive(Debug, Clone, Copy, PartialEq, Eq, Structural)]
pub struct Telemetry {
    pub phase: TelemetryPhase,
    pub has_supervisor_info: bool,
    pub has_lh_active: bool,
    pub has_ranging_state: bool,
}

/// The value, or a default.
pub open spec fn value_or<T>(v: Option<T>, default: T) -> T {
    match v {
        Some(x) => x,
        None => default,
    }
}

fn or_zero(v: Option<u32>) -> (r: u32)
    ensures
        r == value_or(v, 0u32),
{
    match v {
        Some(x) => x,
        None => 0,
    }
}

/// The supervisor bit field of a sample: zero on firmware that has none.
pub open spec fn info_of(t: Telemetry, s: TelemetrySample) -> u16 {
    if t.has_supervisor_info {
        value_or(s.supervisor_info, 0u16)
    } else {
        0
    }
}

/// The state of a unit: crashed and flying come before what the power management says, and are
/// known only where there is a supervisor.
pub open spec fn derived_state(has_supervisor: bool, info: u16, pm_state: i8) -> UnitState {
    if has_supervisor && units::info_bit(info as i32, 7) {
        UnitState::Crashed
    } else if has_supervisor && units::info_bit(info as i32, 4) {
        UnitState::Flying
    } else if pm_state == 1 {
        UnitState::Charging
    } else if pm_state == 2 {
        UnitState::Charged
    } else {
        UnitState::Connected
    }
}

/// The state of a unit.
pub fn derive_unit_state(has_supervisor: bool, info: u16, pm_state: i8) -> (state: UnitState)
    ensures
        state == derived_state(has_supervisor, info, pm_state),
{
    proof {
        reveal_with_fuel(units::pow2, 8);
    }
    if has_supervisor && info / 128 % 2 == 1 {
        UnitState::Crashed
    } else if has_supervisor && info / 16 % 2 == 1 {
        UnitState::Flying
    } else if pm_state == 1 {
        UnitState::Charging
    } else if pm_state == 2 {
        UnitState::Charged
    } else {
        UnitState::Connected
    }
}

/// A sample never leaves a unit disconnected or in error.
pub proof fn law_sample_means_connected(has_supervisor: bool, info: u16, pm_state: i8)
    ensures
        !units::needs_connection(derived_state(has_supervisor, info, pm_state)),
        !has_supervisor ==> derived_state(has_supervisor, info, pm_state) == derived_state(
            true,
            0,
            pm_state,
        ),
{
    reveal_with_fuel(units::pow2, 8);
}

/// A unit after a sample.
pub open spec fn sampled(
    u: UnitView,
    t: Telemetry,
    s: TelemetrySample,
    l: LinkStatistics,
) -> UnitView {
    let pm = value_or(s.pm_state, -1i8);
    let info = info_of(t, s);
    UnitView {
        pos_x: value_or(s.x, 0),
        pos_y: value_or(s.y, 0),
        pos_z: value_or(s.z, 0),
        battery_voltage: value_or(s.battery_voltage, 0),
        link_quality: value_or(l.link_quality, 0),
        uplink_rate: value_or(l.uplink_rate, 0),
        downlink_rate: value_or(l.downlink_rate, 0),
        radio_send_rate: value_or(l.radio_send_rate, 0),
        avg_retries: value_or(l.avg_retries, 0),
        rssi: value_or(l.rssi, 0),
        has_rssi: l.rssi is Some,
        pm_state: units::pm_state_name(pm),
        supervisor_info: info as i32,
        supervisor_state: units::supervisor_name(info as i32),
        state: derived_state(t.has_supervisor_info, info, pm),
        ..u
    }
}

/// The event is one that the phase can have.
pub open spec fn fits(phase: TelemetryPhase, event: TelemetryEvent) -> bool {
    match phase {
        TelemetryPhase::Creating => event is Done || event is Failed,
        TelemetryPhase::Requiring(n) => n < 5 && (event is Done || event is Failed),
        TelemetryPhase::Probing(n) => n < 3 && (event is Done || event is Failed),
        TelemetryPhase::Starting => event is Done || event is Failed,
        TelemetryPhase::Listening => event is Sample || event is Ended,
        TelemetryPhase::Ended => true,
    }
}

/// The telemetry after an event.
pub open spec fn telemetry_next(t: Telemetry, event: TelemetryEvent) -> Telemetry {
    let ok = !(event is Failed);
    let over = Telemetry { phase: TelemetryPhase::Ended, ..t };
    match t.phase {
        TelemetryPhase::Creating => if ok {
            Telemetry { phase: TelemetryPhase::Requiring(0), ..t }
        } else {
            over
        },
        TelemetryPhase::Requiring(n) => if !ok {
            over
        } else if n + 1 < 5 {
            Telemetry { phase: TelemetryPhase::Requiring((n + 1) as usize), ..t }
        } else {
            Telemetry { phase: TelemetryPhase::Probing(0), ..t }
        },
        TelemetryPhase::Probing(n) => Telemetry {
            phase: if n + 1 < 3 {
                TelemetryPhase::Probing((n + 1) as usize)
            } else {
                TelemetryPhase::Starting
            },
            has_supervisor_info: if n == 0 {
                ok
            } else {
                t.has_supervisor_info
            },
            has_lh_active: if n == 1 {
                ok
            } else {
                t.has_lh_active
            },
            has_ranging_state: if n == 2 {
                ok
            } else {
                t.has_ranging_state
            },
        },
        TelemetryPhase::Starting => if ok {
            Telemetry { phase: TelemetryPhase::Listening, ..t }
        } else {
            over
        },
        TelemetryPhase::Listening => if event is Sample {
            t
        } else {
            over
        },
        TelemetryPhase::Ended => t,
    }
}

/// The unit after an event.
pub open spec fn unit_next(u: UnitView, t: Telemetry, event: TelemetryEvent) -> UnitView {
    match (t.phase, event) {
        (TelemetryPhase::Creating, TelemetryEvent::Failed(e)) => UnitView {
            state: UnitState::Error,
            error_message: e@,
            ..u
        },
        (TelemetryPhase::Requiring(_), TelemetryEvent::Failed(_)) => UnitView {
            state: UnitState::Error,
            error_message: "Failed to add log variables"@,
            ..u
        },
        (TelemetryPhase::Starting, TelemetryEvent::Failed(e)) => UnitView {
            state: UnitState::Error,
            error_message: e@,
            ..u
        },
        (TelemetryPhase::Listening, TelemetryEvent::Sample(s, l)) => sampled(u, t, s, l),
        (TelemetryPhase::Listening, TelemetryEvent::Ended) => units::connection_lost(u),
        _ => u,
    }
}

impl Telemetry {
    /// The telemetry of a unit that was just connected.
    pub fn new() -> (t: Telemetry)
        ensures
            t.phase == TelemetryPhase::Creating,
            !t.has_supervisor_info,
            !t.has_lh_active,
            !t.has_ranging_state,
    {
        Telemetry {
            phase: TelemetryPhase::Creating,
            has_supervisor_info: false,
            has_lh_active: false,
            has_ranging_state: false,
        }
    }

    /// What the telemetry does in its phase.
    pub fn action(&self) -> (action: TelemetryAction)
        ensures
            match self.phase {
                TelemetryPhase::Creating => action is CreateBlock,
                TelemetryPhase::Requiring(n) => n < 5 ==> (action matches
                    TelemetryAction::AddVariable(v) && v@ == required_variables()[n as int]),
                TelemetryPhase::Probing(n) => n < 3 ==> (action matches
                    TelemetryAction::AddVariable(v) && v@ == optional_variables()[n as int]),
                TelemetryPhase::Starting => action == TelemetryAction::Start(100),
                TelemetryPhase::Listening => action is Listen,
                TelemetryPhase::Ended => action is Stop,
            },
    {
        match self.phase {
            TelemetryPhase::Creating => TelemetryAction::CreateBlock,
            TelemetryPhase::Requiring(n) => TelemetryAction::AddVariable(
                match n {
                    0 => "stateEstimate.x".to_string(),
                    1 => "stateEstimate.y".to_string(),
                    2 => "stateEstimate.z".to_string(),
                    3 => "pm.vbat".to_string(),
                    _ => "pm.state".to_string(),
                },
            ),
            TelemetryPhase::Probing(n) => TelemetryAction::AddVariable(
                match n {
                    0 => "supervisor.info".to_string(),
                    1 => "lighthouse.bsActive".to_string(),
                    _ => "ranging.state".to_string(),
                },
            ),
            TelemetryPhase::Starting => TelemetryAction::Start(TELEMETRY_PERIOD_MS),
            TelemetryPhase::Listening => TelemetryAction::Listen,
            TelemetryPhase::Ended => TelemetryAction::Stop,
        }
    }

    /// Takes an event: the telemetry moves on, and the unit changes with it.
    pub fn start_telemetry(&mut self, unit: &mut UnitData, event: &TelemetryEvent)
        requires
            fits(old(self).phase, *event),
        ensures
            *final(self) == telemetry_next(*old(self), *event),
            final(unit)@ == unit_next(old(unit)@, *old(self), *event),
    {
        let ok = match event {
            TelemetryEvent::Failed(_) => false,
            _ => true,
        };
        match self.phase {
            TelemetryPhase::Creating => {
                if ok {
                    self.phase = TelemetryPhase::Requiring(0);
                } else {
                    self.phase = TelemetryPhase::Ended;
                    if let TelemetryEvent::Failed(e) = event {
                        mark_error(unit, e.as_str());
                    }
                }
            },
            TelemetryPhase::Requiring(n) => {
                if !ok {
                    self.phase = TelemetryPhase::Ended;
                    mark_error(unit, "Failed to add log variables");
                } else if n + 1 < 5 {
                    self.phase = TelemetryPhase::Requiring(n + 1);
                } else {
                    self.phase = TelemetryPhase::Probing(0);
                }
            },
            TelemetryPhase::Probing(n) => {
                if n == 0 {
                    self.has_supervisor_info = ok;
                } else if n == 1 {
                    self.has_lh_active = ok;
                } else if n == 2 {
                    self.has_ranging_state = ok;
                }
                if n + 1 < 3 {
                    self.phase = TelemetryPhase::Probing(n + 1);
                } else {
                    self.phase = TelemetryPhase::Starting;
                }
            },
            TelemetryPhase::Starting => {
                if ok {
                    self.phase = TelemetryPhase::Listening;
                } else {
                    self.phase = TelemetryPhase::Ended;
                    if let TelemetryEvent::Failed(e) = event {
                        mark_error(unit, e.as_str());
                    }
                }
            },
            TelemetryPhase::Listening => {
                match event {
                    TelemetryEvent::Sample(s, l) => self.apply(unit, s, l),
                    _ => {
                        self.phase = TelemetryPhase::Ended;
                        mark_connection_lost(unit);
                    },
                }
            },
            TelemetryPhase::Ended => {},
        }
    }

    fn apply(&self, unit: &mut UnitData, s: &TelemetrySample, l: &LinkStatistics)
        ensures
            final(unit)@ == sampled(old(unit)@, *self, *s, *l),
    {
        let pm: i8 = match s.pm_state {
            Some(p) => p,
            None => -1,
        };
        let info: u16 = if self.has_supervisor_info {
            match s.supervisor_info {
                Some(i) => i,
                None => 0,
            }
        } else {
            0
        };
        unit.pos_x = or_zero(s.x);
        unit.pos_y = or_zero(s.y);
        unit.pos_z = or_zero(s.z);
        unit.battery_voltage = or_zero(s.battery_voltage);
        unit.link_quality = or_zero(l.link_quality);
        unit.uplink_rate = or_zero(l.uplink_rate);
        unit.downlink_rate = or_zero(l.downlink_rate);
        unit.radio_send_rate = or_zero(l.radio_send_rate);
        unit.avg_retries = or_zero(l.avg_retries);
        unit.rssi = or_zero(l.rssi);
        unit.has_rssi = l.rssi.is_some();
        unit.pm_state = pm_state_text(pm).to_string();
        unit.supervisor_info = info as i32;
        unit.supervisor_state = supervisor_text(info as i32);
        unit.state = derive_unit_state(self.has_supervisor_info, info, pm);
    }

    /// Which base stations and anchors the unit receives, for the unit that positions are read
    /// from: nothing on firmware that does not say.
    pub fn received(&self, s: &TelemetrySample) -> (masks: (u16, u16))
        ensures
            masks.0 == (if self.has_lh_active {
                value_or(s.lighthouse_active, 0u16)
            } else {
                0
            }),
            masks.1 == (if self.has_ranging_state {
                value_or(s.ranging_state, 0u16)
            } else {
                0
            }),
    {
        let lighthouse: u16 = if self.has_lh_active {
            match s.lighthouse_active {
                Some(m) => m,
                None => 0,
            }
        } else {
            0
        };
        let loco: u16 = if self.has_ranging_state {
            match s.ranging_state {
                Some(m) => m,
                None => 0,
            }
        } else {
            0
        };
        (lighthouse, loco)
    }
}

/// After a sample the unit is where the sample says, with the battery voltage and the link
/// statistics that came with it, each its own; what the sample does not hold is zero. The name,
/// address, decks and journal of the unit stay.
pub proof fn law_sample_is_shown(
    u: UnitView,
    t: Telemetry,
    s: TelemetrySample,
    l: LinkStatistics,
    now: UnitView,
)
    requires
        t.phase is Listening,
        now == unit_next(u, t, TelemetryEvent::Sample(s, l)),
    ensures
        s.x matches Some(v) ==> now.pos_x == v,
        s.y matches Some(v) ==> now.pos_y == v,
        s.z matches Some(v) ==> now.pos_z == v,
        s.battery_voltage matches Some(v) ==> now.battery_voltage == v,
        l.link_quality matches Some(v) ==> now.link_quality == v,
        l.uplink_rate matches Some(v) ==> now.uplink_rate == v,
        l.downlink_rate matches Some(v) ==> now.downlink_rate == v,
        l.radio_send_rate matches Some(v) ==> now.radio_send_rate == v,
        l.avg_retries matches Some(v) ==> now.avg_retries == v,
        l.rssi matches Some(v) ==> now.rssi == v && now.has_rssi,
        s.x is None ==> now.pos_x == 0,
        s.y is None ==> now.pos_y == 0,
        s.z is None ==> now.pos_z == 0,
        s.battery_voltage is None ==> now.battery_voltage == 0,
        l.link_quality is None ==> now.link_quality == 0,
        l.uplink_rate is None ==> now.uplink_rate == 0,
        l.downlink_rate is None ==> now.downlink_rate == 0,
        l.radio_send_rate is None ==> now.radio_send_rate == 0,
        l.avg_retries is None ==> now.avg_retries == 0,
        l.rssi is None ==> now.rssi == 0 && !now.has_rssi,
        t.has_supervisor_info ==> (s.supervisor_info matches Some(v) ==> now.supervisor_info == v),
        !t.has_supervisor_info || s.supervisor_info is None ==> now.supervisor_info == 0,
        now.supervisor_state == units::supervisor_name(now.supervisor_info),
        s.pm_state matches Some(p) ==> now.pm_state == units::pm_state_name(p),
        now.name == u.name,
        now.uri == u.uri,
        now.description == u.description,
        now.serial == u.serial,
        now.deck_lighthouse == u.deck_lighthouse,
        now.deck_loco == u.deck_loco,
        now.deck_led_top == u.deck_led_top,
        now.deck_led_bottom == u.deck_led_bottom,
        now.journal_entry_count == u.journal_entry_count,
{
}

/// The state after a sample: crashed if and only if the supervisor says so; flying if it says so
/// of a unit that has not crashed; otherwise charging or charged as the power management says,
/// and else connected. Where there is no supervisor a unit neither crashes nor flies.
pub proof fn law_state_of_sample(
    u: UnitView,
    t: Telemetry,
    s: TelemetrySample,
    l: LinkStatistics,
    now: UnitView,
)
    requires
        t.phase is Listening,
        now == unit_next(u, t, TelemetryEvent::Sample(s, l)),
    ensures
        now.state is Crashed <==> t.has_supervisor_info && (s.supervisor_info matches Some(i) && i
            / 128 % 2 == 1),
        now.state is Flying <==> t.has_supervisor_info && (s.supervisor_info matches Some(i) && i
            / 128 % 2 == 0 && i / 16 % 2 == 1),
        now.state is Charging ==> s.pm_state == Some(1i8),
        now.state is Charged ==> s.pm_state == Some(2i8),
        now.state is Connected ==> s.pm_state != Some(1i8) && s.pm_state != Some(2i8),
        !(now.state is Disconnected) && !(now.state is Error),
{
    reveal_with_fuel(units::pow2, 8);
}

/// The telemetry after several events.
pub open spec fn telemetry_after(t: Telemetry, events: Seq<TelemetryEvent>) -> Telemetry
    decreases events.len(),
{
    if events.len() == 0 {
        t
    } else {
        telemetry_after(telemetry_next(t, events[0]), events.skip(1))
    }
}

/// Setting up takes ten steps when the required variables are all there: the block, five required
/// and three optional variables, and the start. Of each optional variable it is remembered
/// whether it could be added, and missing ones do not end the telemetry.
pub proof fn law_set_up(t: Telemetry, events: Seq<TelemetryEvent>)
    requires
        t.phase is Creating,
        events.len() == 10,
        forall|i: int| 0 <= i < 6 ==> (#[trigger] events[i]) is Done,
        forall|i: int| 6 <= i < 9 ==> (#[trigger] events[i]) is Done || events[i] is Failed,
        events[9] is Done,
    ensures
        telemetry_after(t, events) == (Telemetry {
            phase: TelemetryPhase::Listening,
            has_supervisor_info: events[6] is Done,
            has_lh_active: events[7] is Done,
            has_ranging_state: events[8] is Done,
        }),
{
    reveal_with_fuel(telemetry_after, 11);
    assert(events[0] is Done && events[1] is Done && events[2] is Done && events[3] is Done
        && events[4] is Done && events[5] is Done);
    assert(events[6] is Done || events[6] is Failed);
    assert(events[7] is Done || events[7] is Failed);
    assert(events[8] is Done || events[8] is Failed);
    let e1 = events.skip(1);
    let e2 = e1.skip(1);
    let e3 = e2.skip(1);
    let e4 = e3.skip(1);
    let e5 = e4.skip(1);
    let e6 = e5.skip(1);
    let e7 = e6.skip(1);
    let e8 = e7.skip(1);
    let e9 = e8.skip(1);
    assert(e1[0] == events[1] && e2[0] == events[2] && e3[0] == events[3] && e4[0] == events[4]
        && e5[0] == events[5] && e6[0] == events[6] && e7[0] == events[7] && e8[0] == events[8]
        && e9[0] == events[9]);
}

/// A failure ends the telemetry with an error of the unit, unless it is about an optional
/// variable. The end of the stream ends it too; other events leave the unit's state as it is.
pub proof fn law_telemetry_ends(u: UnitView, t: Telemetry, event: TelemetryEvent)
    requires
        fits(t.phase, event),
        !(t.phase is Ended),
    ensures
        telemetry_next(t, event).phase is Ended <==> event is Ended || (event is Failed
            && !(t.phase is Probing)),
        event is Failed && !(t.phase is Probing) ==> unit_next(u, t, event).state is Error,
        event is Failed && t.phase is Probing ==> unit_next(u, t, event) == u,
        event is Done ==> unit_next(u, t, event) == u,
        event is Ended ==> unit_next(u, t, event).state is Disconnected,
        event matches TelemetryEvent::Failed(e) ==> (t.phase is Creating || t.phase is Starting)
            ==> unit_next(u, t, event).error_message == e@,
{
}

/// The variables that are asked for are the position along the three axes, the battery and the
/// power state, and then, where the unit has them, the supervisor, the base stations in sight and
/// the anchors in range.
pub proof fn law_variables_asked_for()
    ensures
        required_variables().len() == 5,
        optional_variables().len() == 3,
        required_variables()[0] == "stateEstimate.x"@,
        required_variables()[1] == "stateEstimate.y"@,
        required_variables()[2] == "stateEstimate.z"@,
        required_variables()[3] == "pm.vbat"@,
        required_variables()[4] == "pm.state"@,
        optional_variables()[0] == "supervisor.info"@,
        optional_variables()[1] == "lighthouse.bsActive"@,
        optional_variables()[2] == "ranging.state"@,
{
}

/// A unit that misses a required variable reports so, whatever the reason was.
pub proof fn law_missing_variable(u: UnitView, t: Telemetry, event: TelemetryEvent)
    requires
        t.phase is Requiring,
        event is Failed,
    ensures
        unit_next(u, t, event) == (UnitView {
            state: UnitState::Error,
            error_message: "Failed to add log variables"@,
            ..u
        }),
        telemetry_next(t, event).phase is Ended,
{
}

} // verus!
