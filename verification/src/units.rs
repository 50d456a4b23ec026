//! The units of a swarm: what is known of each, the table that lists them, and how connecting,
//! telemetry and disconnecting change what is known. Measured values are the bits of singles.

use crate::float_bits;
use crate::lists;
use crate::sorting;
use crate::text;
use crate::uri::uri_with_default_timeout;
use crate::uri;
use vstd::prelude::*;
use vstd::string::*;

verus! {

// ---------------------------------------------------------------------------
// States
// ---------------------------------------------------------------------------

/// The state of a unit, in the order in which the table sorts them.
#[derive(Debug, Clone, Copy, PartialEq, Eq, Structural)]
pub enum UnitState {
    Disconnected,
    Connected,
    Charging,
    Charged,
    Flying,
    Crashed,
    Error,
}

/// The rank of a state in the table.
pub open spec fn state_rank(state: UnitState) -> int {
    match state {
        UnitState::Disconnected => 0,
        UnitState::Connected => 1,
        UnitState::Charging => 2,
        UnitState::Charged => 3,
        UnitState::Flying => 4,
        UnitState::Crashed => 5,
        UnitState::Error => 6,
    }
}

fn rank_of_state(state: UnitState) -> (rank: i64)
    ensures
        rank == state_rank(state),
{
    match state {
        UnitState::Disconnected => 0,
        UnitState::Connected => 1,
        UnitState::Charging => 2,
        UnitState::Charged => 3,
        UnitState::Flying => 4,
        UnitState::Crashed => 5,
        UnitState::Error => 6,
    }
}

/// The symbol of a state.
pub open spec fn symbol_of(state: UnitState) -> Seq<char> {
    match state {
        UnitState::Disconnected => "○"@,
        UnitState::Connected => "●"@,
        UnitState::Charging => "⚡"@,
        UnitState::Charged => "🔌"@,
        UnitState::Flying => "▲"@,
        UnitState::Crashed => "✕"@,
        UnitState::Error => "✕"@,
    }
}

/// The symbol of a state.
pub fn state_symbol(state: UnitState) -> (s: &'static str)
    ensures
        s@ == symbol_of(state),
{
    match state {
        UnitState::Disconnected => "○",
        UnitState::Connected => "●",
        UnitState::Charging => "⚡",
        UnitState::Charged => "🔌",
        UnitState::Flying => "▲",
        UnitState::Crashed => "✕",
        UnitState::Error => "✕",
    }
}

/// The name of a state.
pub open spec fn state_name(state: UnitState) -> Seq<char> {
    match state {
        UnitState::Disconnected => "Disconnected"@,
        UnitState::Connected => "Connected"@,
        UnitState::Charging => "Charging"@,
        UnitState::Charged => "Charged"@,
        UnitState::Flying => "Flying"@,
        UnitState::Crashed => "Crashed"@,
        UnitState::Error => "Error"@,
    }
}

/// The name of a state.
pub fn state_text(state: UnitState) -> (s: &'static str)
    ensures
        s@ == state_name(state),
{
    match state {
        UnitState::Disconnected => "Disconnected",
        UnitState::Connected => "Connected",
        UnitState::Charging => "Charging",
        UnitState::Charged => "Charged",
        UnitState::Flying => "Flying",
        UnitState::Crashed => "Crashed",
        UnitState::Error => "Error",
    }
}

/// The name of a power state.
pub open spec fn pm_state_name(state: i8) -> Seq<char> {
    if state == 0 {
        "Battery"@
    } else if state == 1 {
        "Charging"@
    } else if state == 2 {
        "Charged"@
    } else if state == 3 {
        "Low power"@
    } else if state == 4 {
        "Shutdown"@
    } else {
        "Unknown"@
    }
}

/// The name of a power state.
pub fn pm_state_text(state: i8) -> (s: &'static str)
    ensures
        s@ == pm_state_name(state),
{
    match state {
        0 => "Battery",
        1 => "Charging",
        2 => "Charged",
        3 => "Low power",
        4 => "Shutdown",
        _ => "Unknown",
    }
}

/// Bit `n` of the low sixteen bits of `info`.
pub open spec fn info_bit(info: i32, n: nat) -> bool {
    (info as int % 65536) / (pow2(n) as int) % 2 == 1
}

/// Two to the power of `n`.
pub open spec fn pow2(n: nat) -> nat
    decreases n,
{
    if n == 0 {
        1
    } else {
        2 * pow2((n - 1) as nat)
    }
}

/// The names of the supervisor flags that are set, highest bit first.
pub open spec fn supervisor_flags(info: i32) -> Seq<Seq<char>> {
    let none = Seq::<Seq<char>>::empty();
    let crashed = if info_bit(info, 7) { none.push("Crashed"@) } else { none };
    let locked = if info_bit(info, 6) { crashed.push("Locked"@) } else { crashed };
    let tumbled = if info_bit(info, 5) { locked.push("Tumbled"@) } else { locked };
    let flying = if info_bit(info, 4) { tumbled.push("Flying"@) } else { tumbled };
    if info_bit(info, 1) {
        flying.push("Armed"@)
    } else {
        flying
    }
}

/// The text for a supervisor bit field.
pub open spec fn supervisor_name(info: i32) -> Seq<char> {
    if supervisor_flags(info).len() == 0 {
        "Idle"@
    } else {
        text::joined(supervisor_flags(info), ", "@)
    }
}

/// The low sixteen bits of a number, as a number from 0 to 65535.
pub fn low_bits(info: i32) -> (low: u16)
    ensures
        low == info as int % 65536,
{
    let wide: i64 = info as i64;
    let shifted: i64 = wide + 4294967296;
    assert(shifted % 65536 == wide % 65536);
    (shifted % 65536) as u16
}

proof fn lemma_pow2_values()
    ensures
        pow2(1) == 2,
        pow2(4) == 16,
        pow2(5) == 32,
        pow2(6) == 64,
        pow2(7) == 128,
{
    reveal_with_fuel(pow2, 8);
}

/// The text for a supervisor bit field: the flags that are set, or `Idle`.
pub fn supervisor_text(info: i32) -> (s: String)
    ensures
        s@ == supervisor_name(info),
{
    let low: u16 = low_bits(info);
    proof {
        lemma_pow2_values();
    }
    let mut flags: Vec<String> = Vec::new();
    let ghost none = Seq::<Seq<char>>::empty();
    assert(text::texts(flags@) =~= none);
    if low / 128 % 2 == 1 {
        flags.push("Crashed".to_string());
        assert(text::texts(flags@) =~= none.push("Crashed"@));
    }
    let ghost crashed = text::texts(flags@);
    if low / 64 % 2 == 1 {
        flags.push("Locked".to_string());
        assert(text::texts(flags@) =~= crashed.push("Locked"@));
    }
    let ghost locked = text::texts(flags@);
    if low / 32 % 2 == 1 {
        flags.push("Tumbled".to_string());
        assert(text::texts(flags@) =~= locked.push("Tumbled"@));
    }
    let ghost tumbled = text::texts(flags@);
    if low / 16 % 2 == 1 {
        flags.push("Flying".to_string());
        assert(text::texts(flags@) =~= tumbled.push("Flying"@));
    }
    let ghost flying = text::texts(flags@);
    if low / 2 % 2 == 1 {
        flags.push("Armed".to_string());
        assert(text::texts(flags@) =~= flying.push("Armed"@));
    }
    assert(text::texts(flags@) == supervisor_flags(info));
    assert(text::texts(flags@).len() == flags@.len());
    if flags.len() == 0 {
        "Idle".to_string()
    } else {
        text::join(flags.as_slice(), ", ")
    }
}

/// The name of a flag is in the text if and only if its bit is set, told by its first letter.
proof fn lemma_supervisor_letters(info: i32)
    ensures
        supervisor_name(info).contains('C') <==> info_bit(info, 7),
        supervisor_name(info).contains('L') <==> info_bit(info, 6),
        supervisor_name(info).contains('T') <==> info_bit(info, 5),
        supervisor_name(info).contains('F') <==> info_bit(info, 4),
        supervisor_name(info).contains('A') <==> info_bit(info, 1),
        supervisor_name(info).contains('I') <==> supervisor_flags(info).len() == 0,
{
    reveal_strlit("Crashed");
    reveal_strlit("Locked");
    reveal_strlit("Tumbled");
    reveal_strlit("Flying");
    reveal_strlit("Armed");
    reveal_strlit("Idle");
    reveal_strlit(", ");
    let flags = supervisor_flags(info);
    text::lemma_joined_holds(flags, ", "@, 'C');
    text::lemma_joined_holds(flags, ", "@, 'L');
    text::lemma_joined_holds(flags, ", "@, 'T');
    text::lemma_joined_holds(flags, ", "@, 'F');
    text::lemma_joined_holds(flags, ", "@, 'A');
    text::lemma_joined_holds(flags, ", "@, 'I');
    let c: int = if info_bit(info, 7) { 1 } else { 0 };
    let l: int = c + (if info_bit(info, 6) { 1int } else { 0 });
    let t: int = l + (if info_bit(info, 5) { 1int } else { 0 });
    let f: int = t + (if info_bit(info, 4) { 1int } else { 0 });
    assert("Crashed"@[0] == 'C');
    assert("Locked"@[0] == 'L');
    assert("Tumbled"@[0] == 'T');
    assert("Flying"@[0] == 'F');
    assert("Armed"@[0] == 'A');
    assert("Idle"@[0] == 'I');
    assert(info_bit(info, 7) ==> flags[0] == "Crashed"@);
    assert(info_bit(info, 6) ==> flags[c] == "Locked"@);
    assert(info_bit(info, 5) ==> flags[l] == "Tumbled"@);
    assert(info_bit(info, 4) ==> flags[t] == "Flying"@);
    assert(info_bit(info, 1) ==> flags[f] == "Armed"@);
}

/// Two supervisor bit fields have the same text if and only if they agree in the five bits that
/// have a name, and the text is `Idle` if and only if none of these is set.
pub proof fn law_supervisor_text(a: i32, b: i32)
    ensures
        supervisor_name(a) == supervisor_name(b) <==> {
            &&& info_bit(a, 7) == info_bit(b, 7)
            &&& info_bit(a, 6) == info_bit(b, 6)
            &&& info_bit(a, 5) == info_bit(b, 5)
            &&& info_bit(a, 4) == info_bit(b, 4)
            &&& info_bit(a, 1) == info_bit(b, 1)
        },
        supervisor_name(a) == "Idle"@ <==> !info_bit(a, 7) && !info_bit(a, 6) && !info_bit(a, 5)
            && !info_bit(a, 4) && !info_bit(a, 1),
{
    lemma_supervisor_letters(a);
    lemma_supervisor_letters(b);
    reveal_strlit("Idle");
    assert("Idle"@[0] == 'I');
}

/// A tick for a deck that is there.
pub fn bool_check(v: bool) -> (s: &'static str)
    ensures
        s@ == (if v {
            "✓"@
        } else {
            ""@
        }),
{
    if v {
        "✓"
    } else {
        ""
    }
}

// ---------------------------------------------------------------------------
// Units
// ---------------------------------------------------------------------------

/// What is known of a unit.
#[derive(Debug, Clone)]
pub struct UnitData {
    pub name: String,
    pub uri: String,
    pub description: String,
    pub state: UnitState,
    pub pos_x: u32,
    pub pos_y: u32,
    pub pos_z: u32,
    pub battery_voltage: u32,
    pub deck_lighthouse: bool,
    pub deck_loco: bool,
    pub deck_led_top: bool,
    pub deck_led_bottom: bool,
    pub serial: String,
    pub pm_state: String,
    pub supervisor_info: i32,
    pub supervisor_state: String,
    pub journal_entry_count: i32,
    pub platform_type: String,
    pub firmware_version: String,
    pub link_quality: u32,
    pub uplink_rate: u32,
    pub downlink_rate: u32,
    pub radio_send_rate: u32,
    pub avg_retries: u32,
    pub rssi: u32,
    pub has_rssi: bool,
    pub error_message: String,
    pub identifying: bool,
    pub selftest_passed: bool,
}

/// What is known of a unit, with its texts as characters.
pub struct UnitView {
    pub name: Seq<char>,
    pub uri: Seq<char>,
    pub description: Seq<char>,
    pub state: UnitState,
    pub pos_x: u32,
    pub pos_y: u32,
    pub pos_z: u32,
    pub battery_voltage: u32,
    pub deck_lighthouse: bool,
    pub deck_loco: bool,
    pub deck_led_top: bool,
    pub deck_led_bottom: bool,
    pub serial: Seq<char>,
    pub pm_state: Seq<char>,
    pub supervisor_info: i32,
    pub supervisor_state: Seq<char>,
    pub journal_entry_count: i32,
    pub platform_type: Seq<char>,
    pub firmware_version: Seq<char>,
    pub link_quality: u32,
    pub uplink_rate: u32,
    pub downlink_rate: u32,
    pub radio_send_rate: u32,
    pub avg_retries: u32,
    pub rssi: u32,
    pub has_rssi: bool,
    pub error_message: Seq<char>,
    pub identifying: bool,
    pub selftest_passed: bool,
}

impl View for UnitData {
    type V = UnitView;

    open spec fn view(&self) -> UnitView {
        UnitView {
            name: self.name@,
            uri: self.uri@,
            description: self.description@,
            state: self.state,
            pos_x: self.pos_x,
            pos_y: self.pos_y,
            pos_z: self.pos_z,
            battery_voltage: self.battery_voltage,
            deck_lighthouse: self.deck_lighthouse,
            deck_loco: self.deck_loco,
            deck_led_top: self.deck_led_top,
            deck_led_bottom: self.deck_led_bottom,
            serial: self.serial@,
            pm_state: self.pm_state@,
            supervisor_info: self.supervisor_info,
            supervisor_state: self.supervisor_state@,
            journal_entry_count: self.journal_entry_count,
            platform_type: self.platform_type@,
            firmware_version: self.firmware_version@,
            link_quality: self.link_quality,
            uplink_rate: self.uplink_rate,
            downlink_rate: self.downlink_rate,
            radio_send_rate: self.radio_send_rate,
            avg_retries: self.avg_retries,
            rssi: self.rssi,
            has_rssi: self.has_rssi,
            error_message: self.error_message@,
            identifying: self.identifying,
            selftest_passed: self.selftest_passed,
        }
    }
}

/// The views of a list of units.
pub open spec fn unit_views(units: Seq<UnitData>) -> Seq<UnitView> {
    Seq::new(units.len(), |i: int| units[i]@)
}

/// A unit that was never connected.
pub open spec fn fresh_unit(name: Seq<char>, uri: Seq<char>, description: Seq<char>) -> UnitView {
    UnitView {
        name,
        uri,
        description,
        state: UnitState::Disconnected,
        pos_x: 0,
        pos_y: 0,
        pos_z: 0,
        battery_voltage: 0,
        deck_lighthouse: false,
        deck_loco: false,
        deck_led_top: false,
        deck_led_bottom: false,
        serial: Seq::empty(),
        pm_state: Seq::empty(),
        supervisor_info: 0,
        supervisor_state: Seq::empty(),
        journal_entry_count: 0,
        platform_type: Seq::empty(),
        firmware_version: Seq::empty(),
        link_quality: 0,
        uplink_rate: 0,
        downlink_rate: 0,
        radio_send_rate: 0,
        avg_retries: 0,
        rssi: 0,
        has_rssi: false,
        error_message: Seq::empty(),
        identifying: false,
        selftest_passed: false,
    }
}

/// A unit of a swarm configuration.
#[derive(Debug, Clone)]
pub struct UnitConfig {
    pub uri: String,
    pub name: String,
    pub description: Option<String>,
}

/// A swarm configuration.
#[derive(Debug, Clone)]
pub struct SwarmConfig {
    pub name: String,
    pub description: Option<String>,
    pub units: Vec<UnitConfig>,
}

/// The unit that a configuration describes.
pub open spec fn configured_unit(config: UnitConfig) -> UnitView {
    fresh_unit(
        config.name@,
        uri::with_timeout(config.uri@),
        match config.description {
            Some(d) => d@,
            None => Seq::empty(),
        },
    )
}

/// Makes the unit that a configuration describes.
pub fn unit_from_config(config: &UnitConfig) -> (unit: UnitData)
    ensures
        unit@ == configured_unit(*config),
{
    let description = match &config.description {
        Some(d) => d.clone(),
        None => String::new(),
    };
    UnitData {
        name: config.name.clone(),
        uri: uri_with_default_timeout(config.uri.as_str()),
        description,
        state: UnitState::Disconnected,
        pos_x: 0,
        pos_y: 0,
        pos_z: 0,
        battery_voltage: 0,
        deck_lighthouse: false,
        deck_loco: false,
        deck_led_top: false,
        deck_led_bottom: false,
        serial: String::new(),
        pm_state: String::new(),
        supervisor_info: 0,
        supervisor_state: String::new(),
        journal_entry_count: 0,
        platform_type: String::new(),
        firmware_version: String::new(),
        link_quality: 0,
        uplink_rate: 0,
        downlink_rate: 0,
        radio_send_rate: 0,
        avg_retries: 0,
        rssi: 0,
        has_rssi: false,
        error_message: String::new(),
        identifying: false,
        selftest_passed: false,
    }
}

/// What the window shows once a configuration is opened.
pub struct SwarmScreen {
    pub name: String,
    pub units: Vec<UnitData>,
    /// The names of the units, for the lists to choose from.
    pub unit_names: Vec<String>,
    /// The unit chosen for measuring; none when there are no units.
    pub wizard_unit: Option<usize>,
}

/// Opens a swarm configuration: all its units, none of them connected.
pub fn apply_swarm_config(config: &SwarmConfig) -> (screen: SwarmScreen)
    ensures
        screen.name@ == config.name@,
        unit_views(screen.units@) == Seq::new(
            config.units@.len(),
            |i: int| configured_unit(config.units@[i]),
        ),
        text::texts(screen.unit_names@) == Seq::new(
            config.units@.len(),
            |i: int| config.units@[i].name@,
        ),
        screen.wizard_unit == (if config.units@.len() > 0 {
            Some(0usize)
        } else {
            None
        }),
{
    let mut units: Vec<UnitData> = Vec::new();
    let mut unit_names: Vec<String> = Vec::new();
    let mut i: usize = 0;
    while i < config.units.len()
        invariant
            i <= config.units@.len(),
            units@.len() == i,
            unit_names@.len() == i,
            forall|k: int| 0 <= k < i ==> (#[trigger] units@[k])@ == configured_unit(config.units@[k]),
            forall|k: int| 0 <= k < i ==> (#[trigger] unit_names@[k])@ == config.units@[k].name@,
        decreases config.units.len() - i,
    {
        units.push(unit_from_config(&config.units[i]));
        unit_names.push(config.units[i].name.clone());
        i = i + 1;
    }
    assert(unit_views(units@) =~= Seq::new(
        config.units@.len(),
        |i: int| configured_unit(config.units@[i]),
    ));
    assert(text::texts(unit_names@) =~= Seq::new(
        config.units@.len(),
        |i: int| config.units@[i].name@,
    ));
    let wizard_unit: Option<usize> = if unit_names.len() == 0 {
        None
    } else {
        Some(0)
    };
    SwarmScreen { name: config.name.clone(), units, unit_names, wizard_unit }
}

// ---------------------------------------------------------------------------
// Changes to a unit
// ---------------------------------------------------------------------------

/// A connection failed.
pub fn mark_error(unit: &mut UnitData, message: &str)
    ensures
        final(unit)@ == (UnitView {
            state: UnitState::Error,
            error_message: message@,
            ..old(unit)@
        }),
{
    unit.state = UnitState::Error;
    unit.error_message = message.to_string();
}

/// What is read from a unit right after connecting.
#[derive(Debug, Clone, Copy)]
pub struct UnitParameters {
    pub deck_lighthouse: u8,
    pub deck_loco: u8,
    pub deck_led_top: u8,
    pub deck_led_bottom: u8,
    pub selftest_passed: i8,
    pub cpu_id: (u32, u32, u32),
}

/// The serial number of a processor: its three words in hexadecimal.
pub open spec fn serial_of(id: (u32, u32, u32)) -> Seq<char> {
    text::hex(id.0 as nat, 8, true) + text::hex(id.1 as nat, 8, true) + text::hex(id.2 as nat, 8, true)
}

/// The serial number of a processor.
pub fn serial_number(id: (u32, u32, u32)) -> (s: String)
    ensures
        s@ == serial_of(id),
{
    let mut s = String::new();
    text::push_hex(&mut s, id.0, 8, true);
    text::push_hex(&mut s, id.1, 8, true);
    text::push_hex(&mut s, id.2, 8, true);
    assert(s@ =~= serial_of(id));
    s
}

/// A unit is connected: its decks, serial number and self test are known.
pub fn mark_connected(unit: &mut UnitData, p: &UnitParameters, journal_entries: i32)
    ensures
        final(unit)@ == (UnitView {
            state: UnitState::Connected,
            deck_lighthouse: p.deck_lighthouse != 0,
            deck_loco: p.deck_loco != 0,
            deck_led_top: p.deck_led_top != 0,
            deck_led_bottom: p.deck_led_bottom != 0,
            serial: serial_of(p.cpu_id),
            selftest_passed: p.selftest_passed != 0,
            journal_entry_count: journal_entries,
            ..old(unit)@
        }),
{
    unit.state = UnitState::Connected;
    unit.deck_lighthouse = p.deck_lighthouse != 0;
    unit.deck_loco = p.deck_loco != 0;
    unit.deck_led_top = p.deck_led_top != 0;
    unit.deck_led_bottom = p.deck_led_bottom != 0;
    unit.serial = serial_number(p.cpu_id);
    unit.selftest_passed = p.selftest_passed != 0;
    unit.journal_entry_count = journal_entries;
}

/// What is left of a unit after a reboot or after it was powered off.
pub open spec fn powered_down(u: UnitView) -> UnitView {
    UnitView {
        state: UnitState::Disconnected,
        pos_x: 0,
        pos_y: 0,
        pos_z: 0,
        battery_voltage: 0,
        link_quality: 0,
        pm_state: Seq::empty(),
        serial: Seq::empty(),
        platform_type: Seq::empty(),
        firmware_version: Seq::empty(),
        journal_entry_count: 0,
        ..u
    }
}

/// What is left of a unit after it was disconnected.
pub open spec fn disconnected(u: UnitView) -> UnitView {
    UnitView {
        deck_lighthouse: false,
        deck_loco: false,
        deck_led_top: false,
        deck_led_bottom: false,
        ..powered_down(u)
    }
}

/// What is left of a unit that was disconnected for a radio test.
pub open spec fn disconnected_for_test(u: UnitView) -> UnitView {
    UnitView { supervisor_info: 0, supervisor_state: Seq::empty(), ..disconnected(u) }
}

/// What is left of a unit whose connection was lost.
pub open spec fn connection_lost(u: UnitView) -> UnitView {
    UnitView {
        uplink_rate: 0,
        downlink_rate: 0,
        radio_send_rate: 0,
        avg_retries: 0,
        rssi: 0,
        has_rssi: false,
        ..disconnected_for_test(u)
    }
}

/// The unit was rebooted or powered off; the decks it had stay listed.
pub fn mark_powered_down(unit: &mut UnitData)
    ensures
        final(unit)@ == powered_down(old(unit)@),
{
    unit.state = UnitState::Disconnected;
    unit.pos_x = 0;
    unit.pos_y = 0;
    unit.pos_z = 0;
    unit.battery_voltage = 0;
    unit.link_quality = 0;
    unit.pm_state = String::new();
    unit.serial = String::new();
    unit.platform_type = String::new();
    unit.firmware_version = String::new();
    unit.journal_entry_count = 0;
}

/// The unit was disconnected.
pub fn mark_disconnected(unit: &mut UnitData)
    ensures
        final(unit)@ == disconnected(old(unit)@),
{
    mark_powered_down(unit);
    unit.deck_lighthouse = false;
    unit.deck_loco = false;
    unit.deck_led_top = false;
    unit.deck_led_bottom = false;
}

/// The unit was disconnected to free the radio for a test.
pub fn mark_disconnected_for_test(unit: &mut UnitData)
    ensures
        final(unit)@ == disconnected_for_test(old(unit)@),
{
    mark_disconnected(unit);
    unit.supervisor_info = 0;
    unit.supervisor_state = String::new();
}

/// The connection to the unit was lost.
pub fn mark_connection_lost(unit: &mut UnitData)
    ensures
        final(unit)@ == connection_lost(old(unit)@),
{
    mark_disconnected_for_test(unit);
    unit.uplink_rate = 0;
    unit.downlink_rate = 0;
    unit.radio_send_rate = 0;
    unit.avg_retries = 0;
    unit.rssi = 0;
    unit.has_rssi = false;
}

/// A unit whose connection is lost looks as before it was ever connected, but for what its
/// configuration says and for the marks that outlive a connection: the last error, the self test
/// and whether it was identifying itself. Disconnecting again changes nothing.
pub proof fn law_lost_unit(u: UnitView)
    ensures
        connection_lost(u) == (UnitView {
            error_message: u.error_message,
            identifying: u.identifying,
            selftest_passed: u.selftest_passed,
            ..fresh_unit(u.name, u.uri, u.description)
        }),
        connection_lost(connection_lost(u)) == connection_lost(u),
        disconnected(disconnected(u)) == disconnected(u),
        connection_lost(disconnected(u)) == connection_lost(u),
{
}

/// Whether a unit has to be connected: it is not, or the last attempt failed.
pub open spec fn needs_connection(state: UnitState) -> bool {
    state == UnitState::Disconnected || state == UnitState::Error
}

/// Whether a unit has to be connected.
pub fn is_offline(state: UnitState) -> (r: bool)
    ensures
        r == needs_connection(state),
{
    match state {
        UnitState::Disconnected => true,
        UnitState::Error => true,
        _ => false,
    }
}

/// Whether the platform and the firmware of a selected unit are to be asked for: it is connected,
/// and they are not known yet.
pub fn wants_platform_info(unit: &UnitData) -> (r: bool)
    ensures
        r == (unit.state != UnitState::Disconnected && unit.platform_type@.len() == 0),
{
    proof {
        reveal_strlit("");
        assert(unit.platform_type@.len() == 0 ==> unit.platform_type@ =~= ""@);
    }
    match unit.state {
        UnitState::Disconnected => false,
        _ => text::same_text(unit.platform_type.as_str(), ""),
    }
}

/// The units that have to be connected.
pub open spec fn offline_filter(units: Seq<UnitData>) -> spec_fn(int) -> bool {
    |i: int| needs_connection(units[i].state)
}

/// The positions of the units that a reconnect goes to.
pub fn offline_units(units: &Vec<UnitData>) -> (list: Vec<usize>)
    ensures
        lists::ints(list@) == lists::positions_where(units@.len(), offline_filter(units@)),
{
    let mut list: Vec<usize> = Vec::new();
    let mut i: usize = 0;
    while i < units.len()
        invariant
            i <= units@.len(),
            lists::ints(list@) == lists::positions_where(i as nat, offline_filter(units@)),
        decreases units.len() - i,
    {
        if is_offline(units[i].state) {
            let ghost before = list@;
            list.push(i);
            assert(lists::ints(list@) =~= lists::ints(before).push(i as int));
        }
        i = i + 1;
    }
    list
}

/// The unit that positions are read from after unit `index` connected: the first one that does.
pub fn source_after_connect(source: Option<usize>, index: usize) -> (r: Option<usize>)
    ensures
        r == (if source is None {
            Some(index)
        } else {
            source
        }),
{
    match source {
        None => Some(index),
        Some(s) => Some(s),
    }
}

/// The unit that positions are read from after unit `index` was disconnected.
pub fn source_after_disconnect(source: Option<usize>, index: usize) -> (r: Option<usize>)
    ensures
        r == (if source == Some(index) {
            None
        } else {
            source
        }),
{
    match source {
        Some(s) => if s == index {
            None
        } else {
            Some(s)
        },
        None => None,
    }
}

// ---------------------------------------------------------------------------
// The table
// ---------------------------------------------------------------------------

/// The texts of a row that are made of measured values.
pub struct RowTexts {
    pub pos_x: String,
    pub pos_y: String,
    pub pos_z: String,
    pub battery: String,
    /// The link quality in percent.
    pub link_percent: i32,
}

/// The columns of a row.
pub open spec fn row_of(u: UnitView, t: RowTexts, symbol: Seq<char>) -> Seq<Seq<char>> {
    let tick = |v: bool| if v { "✓"@ } else { ""@ };
    seq![
        symbol,
        if u.state == UnitState::Error {
            u.error_message
        } else {
            state_name(u.state)
        },
        u.name,
        u.uri,
        t.pos_x@,
        t.pos_y@,
        t.pos_z@,
        t.battery@ + "V"@,
        text::signed_decimal(t.link_percent as int) + "%"@,
        u.pm_state,
        supervisor_name(u.supervisor_info),
        tick(u.deck_lighthouse),
        tick(u.deck_loco),
        tick(u.deck_led_top),
        tick(u.deck_led_bottom),
    ]
}

/// The row of a unit.
pub fn unit_to_row(u: &UnitData, t: &RowTexts) -> (row: Vec<String>)
    ensures
        text::texts(row@) == row_of(u@, *t, symbol_of(u.state)),
{
    let status = match u.state {
        UnitState::Error => u.error_message.clone(),
        _ => state_text(u.state).to_string(),
    };
    let mut percent = String::new();
    text::push_signed(&mut percent, t.link_percent as i64);
    percent.append("%");
    let mut row: Vec<String> = Vec::new();
    row.push(state_symbol(u.state).to_string());
    row.push(status);
    row.push(u.name.clone());
    row.push(u.uri.clone());
    row.push(t.pos_x.clone());
    row.push(t.pos_y.clone());
    row.push(t.pos_z.clone());
    row.push(text::concat2(t.battery.as_str(), "V"));
    row.push(percent);
    row.push(u.pm_state.clone());
    row.push(supervisor_text(u.supervisor_info));
    row.push(bool_check(u.deck_lighthouse).to_string());
    row.push(bool_check(u.deck_loco).to_string());
    row.push(bool_check(u.deck_led_top).to_string());
    row.push(bool_check(u.deck_led_bottom).to_string());
    assert(row@[8]@ =~= text::signed_decimal(t.link_percent as int) + "%"@);
    assert(text::texts(row@) =~= row_of(u@, *t, symbol_of(u.state)));
    row
}

/// `a < b` as the table compares truth values.
pub open spec fn bool_less(a: bool, b: bool) -> bool {
    !a && b
}

/// Unit `a` comes before unit `b` by column `col`, ascending. A value that is no number is equal
/// to every other; columns that do not exist make all units equal.
pub open spec fn column_less(a: UnitView, b: UnitView, col: int) -> bool {
    if col == 0 || col == 1 {
        state_rank(a.state) < state_rank(b.state)
    } else if col == 2 {
        text::precedes(a.name, b.name)
    } else if col == 3 {
        text::precedes(a.uri, b.uri)
    } else if col == 4 {
        float_bits::single_less(a.pos_x, b.pos_x)
    } else if col == 5 {
        float_bits::single_less(a.pos_y, b.pos_y)
    } else if col == 6 {
        float_bits::single_less(a.pos_z, b.pos_z)
    } else if col == 7 {
        float_bits::single_less(a.battery_voltage, b.battery_voltage)
    } else if col == 8 {
        float_bits::single_less(a.link_quality, b.link_quality)
    } else if col == 9 {
        text::precedes(a.pm_state, b.pm_state)
    } else if col == 10 {
        a.supervisor_info < b.supervisor_info
    } else if col == 11 {
        bool_less(a.deck_lighthouse, b.deck_lighthouse)
    } else if col == 12 {
        bool_less(a.deck_loco, b.deck_loco)
    } else if col == 13 {
        bool_less(a.deck_led_top, b.deck_led_top)
    } else if col == 14 {
        bool_less(a.deck_led_bottom, b.deck_led_bottom)
    } else {
        false
    }
}

/// The comparison of a sorted table: by a column, up or down.
pub open spec fn table_less(units: Seq<UnitView>, col: int, ascending: bool) -> spec_fn(
    int,
    int,
) -> bool {
    |a: int, b: int|
        if ascending {
            column_less(units[a], units[b], col)
        } else {
            column_less(units[b], units[a], col)
        }
}

/// No unit has a value that is no number in column `col`.
pub open spec fn column_is_comparable(units: Seq<UnitView>, col: int) -> bool {
    forall|i: int|
        0 <= i < units.len() ==> {
            let u = #[trigger] units[i];
            &&& col == 4 ==> float_bits::single_key(u.pos_x) is Some
            &&& col == 5 ==> float_bits::single_key(u.pos_y) is Some
            &&& col == 6 ==> float_bits::single_key(u.pos_z) is Some
            &&& col == 7 ==> float_bits::single_key(u.battery_voltage) is Some
            &&& col == 8 ==> float_bits::single_key(u.link_quality) is Some
        }
}

/// The table of comparable units is compared consistently, so its order is fully determined.
pub proof fn law_table_order_consistent(units: Seq<UnitView>, col: int, ascending: bool)
    requires
        column_is_comparable(units, col),
    ensures
        sorting::consistent(table_less(units, col, ascending), units.len() as int),
{
    let less = table_less(units, col, ascending);
    let n = units.len() as int;
    assert forall|a: int, b: int| #[trigger] less(a, b) && 0 <= a < n && 0 <= b < n implies !less(
        b,
        a,
    ) by {
        text::lemma_precedes_total(units[a].name, units[b].name);
        text::lemma_precedes_total(units[a].uri, units[b].uri);
        text::lemma_precedes_total(units[a].pm_state, units[b].pm_state);
    }
    assert forall|a: int, b: int, c: int|
        0 <= a < n && 0 <= b < n && 0 <= c < n && !(#[trigger] less(b, a)) && !(#[trigger] less(
            c,
            b,
        )) implies !less(c, a) by {
        lemma_not_before_transitive(units[a].name, units[b].name, units[c].name);
        lemma_not_before_transitive(units[c].name, units[b].name, units[a].name);
        lemma_not_before_transitive(units[a].uri, units[b].uri, units[c].uri);
        lemma_not_before_transitive(units[c].uri, units[b].uri, units[a].uri);
        lemma_not_before_transitive(units[a].pm_state, units[b].pm_state, units[c].pm_state);
        lemma_not_before_transitive(units[c].pm_state, units[b].pm_state, units[a].pm_state);
    }
}

proof fn lemma_not_before_transitive(a: Seq<char>, b: Seq<char>, c: Seq<char>)
    ensures
        !text::precedes(b, a) && !text::precedes(c, b) ==> !text::precedes(c, a),
{
    text::lemma_precedes_total(a, b);
    text::lemma_precedes_total(b, c);
    text::lemma_precedes_total(a, c);
    if !text::precedes(b, a) && !text::precedes(c, b) && text::precedes(c, a) {
        if a != b {
            text::lemma_precedes_transitive(c, a, b);
        }
    }
}

fn unit_less(a: &UnitData, b: &UnitData, col: i32) -> (r: bool)
    ensures
        r == column_less(a@, b@, col as int),
{
    match col {
        0 => rank_of_state(a.state) < rank_of_state(b.state),
        1 => rank_of_state(a.state) < rank_of_state(b.state),
        2 => text::comes_before(text::chars_of(a.name.as_str()).as_slice(), text::chars_of(b.name.as_str()).as_slice()),
        3 => text::comes_before(text::chars_of(a.uri.as_str()).as_slice(), text::chars_of(b.uri.as_str()).as_slice()),
        4 => float_bits::less_single(a.pos_x, b.pos_x),
        5 => float_bits::less_single(a.pos_y, b.pos_y),
        6 => float_bits::less_single(a.pos_z, b.pos_z),
        7 => float_bits::less_single(a.battery_voltage, b.battery_voltage),
        8 => float_bits::less_single(a.link_quality, b.link_quality),
        9 => text::comes_before(
            text::chars_of(a.pm_state.as_str()).as_slice(),
            text::chars_of(b.pm_state.as_str()).as_slice(),
        ),
        10 => a.supervisor_info < b.supervisor_info,
        11 => !a.deck_lighthouse && b.deck_lighthouse,
        12 => !a.deck_loco && b.deck_loco,
        13 => !a.deck_led_top && b.deck_led_top,
        14 => !a.deck_led_bottom && b.deck_led_bottom,
        _ => false,
    }
}

/// The positions of the units in the order of the table. Without a sort column that is the
/// order they came in; equal units stay in it. The order is determined wherever the values of
/// the column can be compared, and every unit is always listed once.
pub fn sort_unit_indices(units: &Vec<UnitData>, col: i32, ascending: bool) -> (order: Vec<usize>)
    ensures
        sorting::lists_all(order@, units@.len() as int),
        col < 0 ==> forall|i: int| 0 <= i < order@.len() ==> #[trigger] order@[i] == i,
        col >= 0 && column_is_comparable(unit_views(units@), col as int) ==> sorting::stably_sorted(
            order@,
            table_less(unit_views(units@), col as int, ascending),
            units@.len() as int,
        ),
{
    if col < 0 {
        let mut order: Vec<usize> = Vec::new();
        let mut i: usize = 0;
        while i < units.len()
            invariant
                i <= units@.len(),
                order@.len() == i,
                forall|k: int| 0 <= k < i ==> #[trigger] order@[k] == k,
            decreases units.len() - i,
        {
            order.push(i);
            i = i + 1;
        }
        return order;
    }
    let ghost model = table_less(unit_views(units@), col as int, ascending);
    proof {
        if column_is_comparable(unit_views(units@), col as int) {
            law_table_order_consistent(unit_views(units@), col as int, ascending);
        }
    }
    let less = |a: usize, b: usize| -> (r: bool)
        requires
            a < units@.len(),
            b < units@.len(),
        ensures
            r == model(a as int, b as int),
        {
            if ascending {
                unit_less(&units[a], &units[b], col)
            } else {
                unit_less(&units[b], &units[a], col)
            }
        };
    sorting::stable_order(units.len(), less, Ghost(model))
}

/// The unit shown in a row of the table; none for a row that is not there.
pub fn unit_at_row(order: &Vec<usize>, row: i32) -> (unit: Option<usize>)
    ensures
        unit == (if 0 <= row < order@.len() {
            Some(order@[row as int])
        } else {
            None
        }),
{
    if row < 0 || row as usize >= order.len() {
        None
    } else {
        Some(order[row as usize])
    }
}

/// The numbers above the table.
#[derive(Debug, Clone, Copy, PartialEq, Eq, Structural)]
pub struct UnitCounts {
    pub connected: i32,
    pub selftest_passed: i32,
    pub battery: i32,
    pub charging: i32,
    pub charged: i32,
}

/// How many of the units satisfy `p`.
pub open spec fn count_of(units: Seq<UnitData>, p: spec_fn(UnitData) -> bool) -> nat
    decreases units.len(),
{
    if units.len() == 0 {
        0
    } else {
        count_of(units.drop_last(), p) + if p(units.last()) {
            1nat
        } else {
            0nat
        }
    }
}

/// The unit is connected.
pub open spec fn is_online() -> spec_fn(UnitData) -> bool {
    |u: UnitData| !needs_connection(u.state)
}

/// The unit is connected and passed its self test.
pub open spec fn is_healthy() -> spec_fn(UnitData) -> bool {
    |u: UnitData| !needs_connection(u.state) && u.selftest_passed
}

/// The unit runs on its battery.
pub open spec fn on_battery() -> spec_fn(UnitData) -> bool {
    |u: UnitData| u.state == UnitState::Connected || u.state == UnitState::Flying
}

/// The unit is charging.
pub open spec fn is_charging() -> spec_fn(UnitData) -> bool {
    |u: UnitData| u.state == UnitState::Charging
}

/// The unit is charged.
pub open spec fn is_charged() -> spec_fn(UnitData) -> bool {
    |u: UnitData| u.state == UnitState::Charged
}

proof fn lemma_count_bounded(units: Seq<UnitData>, p: spec_fn(UnitData) -> bool)
    ensures
        count_of(units, p) <= units.len(),
    decreases units.len(),
{
    if units.len() > 0 {
        lemma_count_bounded(units.drop_last(), p);
    }
}

/// Counts the units for the numbers above the table.
pub fn rebuild_table_rows(units: &Vec<UnitData>) -> (c: UnitCounts)
    requires
        units@.len() <= i32::MAX,
    ensures
        c.connected == count_of(units@, is_online()),
        c.selftest_passed == count_of(units@, is_healthy()),
        c.battery == count_of(units@, on_battery()),
        c.charging == count_of(units@, is_charging()),
        c.charged == count_of(units@, is_charged()),
{
    let mut c = UnitCounts { connected: 0, selftest_passed: 0, battery: 0, charging: 0, charged: 0 };
    let mut i: usize = 0;
    assert(units@.take(0) =~= Seq::empty());
    while i < units.len()
        invariant
            i <= units@.len() <= i32::MAX,
            c.connected == count_of(units@.take(i as int), is_online()),
            c.selftest_passed == count_of(units@.take(i as int), is_healthy()),
            c.battery == count_of(units@.take(i as int), on_battery()),
            c.charging == count_of(units@.take(i as int), is_charging()),
            c.charged == count_of(units@.take(i as int), is_charged()),
        decreases units.len() - i,
    {
        proof {
            let done = units@.take(i as int);
            lemma_count_bounded(done, is_online());
            lemma_count_bounded(done, is_healthy());
            lemma_count_bounded(done, on_battery());
            lemma_count_bounded(done, is_charging());
            lemma_count_bounded(done, is_charged());
            assert(units@.take(i + 1).drop_last() =~= done);
            assert(units@.take(i + 1).last() == units@[i as int]);
        }
        if !is_offline(units[i].state) {
            c.connected = c.connected + 1;
            if units[i].selftest_passed {
                c.selftest_passed = c.selftest_passed + 1;
            }
        }
        match units[i].state {
            UnitState::Connected => {
                c.battery = c.battery + 1;
            },
            UnitState::Flying => {
                c.battery = c.battery + 1;
            },
            UnitState::Charging => {
                c.charging = c.charging + 1;
            },
            UnitState::Charged => {
                c.charged = c.charged + 1;
            },
            _ => {},
        }
        i = i + 1;
    }
    assert(units@.take(units@.len() as int) =~= units@);
    c
}

/// Every connected unit is on battery, charging, charged or crashed: the three numbers never
/// exceed the number of connected units, and no more units passed the self test than are
/// connected.
pub proof fn law_counts(units: Seq<UnitData>)
    ensures
        count_of(units, on_battery()) + count_of(units, is_charging()) + count_of(
            units,
            is_charged(),
        ) <= count_of(units, is_online()),
        count_of(units, is_healthy()) <= count_of(units, is_online()),
        count_of(units, is_online()) <= units.len(),
    decreases units.len(),
{
    if units.len() > 0 {
        law_counts(units.drop_last());
    }
}

/// Each state has the name and the symbol that nothing else has; only a crashed unit and one in
/// error share their symbol.
pub proof fn law_state_words(s: UnitState)
    ensures
        state_name(s) == "Disconnected"@ <==> s is Disconnected,
        state_name(s) == "Connected"@ <==> s is Connected,
        state_name(s) == "Charging"@ <==> s is Charging,
        state_name(s) == "Charged"@ <==> s is Charged,
        state_name(s) == "Flying"@ <==> s is Flying,
        state_name(s) == "Crashed"@ <==> s is Crashed,
        state_name(s) == "Error"@ <==> s is Error,
        symbol_of(s) == "○"@ <==> s is Disconnected,
        symbol_of(s) == "●"@ <==> s is Connected,
        symbol_of(s) == "⚡"@ <==> s is Charging,
        symbol_of(s) == "🔌"@ <==> s is Charged,
        symbol_of(s) == "▲"@ <==> s is Flying,
        symbol_of(s) == "✕"@ <==> s is Crashed || s is Error,
{
    reveal_strlit("Disconnected");
    reveal_strlit("Connected");
    reveal_strlit("Charging");
    reveal_strlit("Charged");
    reveal_strlit("Flying");
    reveal_strlit("Crashed");
    reveal_strlit("Error");
    assert("Disconnected"@[0] == 'D' && "Connected"@[1] == 'o' && "Charging"@[1] == 'h'
        && "Charging"@[5] == 'i' && "Charged"@[5] == 'e' && "Charged"@[1] == 'h' && "Flying"@[0]
        == 'F' && "Crashed"@[1] == 'r' && "Crashed"@[0] == 'C' && "Error"@[0] == 'E'
        && "Connected"@[0] == 'C' && "Charging"@[0] == 'C' && "Charged"@[0] == 'C');
    reveal_strlit("○");
    reveal_strlit("●");
    reveal_strlit("⚡");
    reveal_strlit("🔌");
    reveal_strlit("▲");
    reveal_strlit("✕");
    assert("○"@[0] == '○' && "●"@[0] == '●' && "⚡"@[0] == '⚡' && "🔌"@[0] == '🔌' && "▲"@[0]
        == '▲' && "✕"@[0] == '✕');
}

/// Each power state from zero to four has its name, and any other one is unknown. A unit that
/// charges or is charged is called so by its state and by its power state.
pub proof fn law_power_words(p: i8)
    ensures
        pm_state_name(p) == "Battery"@ <==> p == 0,
        pm_state_name(p) == "Charging"@ <==> p == 1,
        pm_state_name(p) == "Charged"@ <==> p == 2,
        pm_state_name(p) == "Low power"@ <==> p == 3,
        pm_state_name(p) == "Shutdown"@ <==> p == 4,
        pm_state_name(p) == "Unknown"@ <==> p < 0 || p > 4,
        pm_state_name(p) == state_name(UnitState::Charging) <==> p == 1,
        pm_state_name(p) == state_name(UnitState::Charged) <==> p == 2,
{
    reveal_strlit("Battery");
    reveal_strlit("Charging");
    reveal_strlit("Charged");
    reveal_strlit("Low power");
    reveal_strlit("Shutdown");
    reveal_strlit("Unknown");
    assert("Battery"@[0] == 'B' && "Charging"@[5] == 'i' && "Charged"@[5] == 'e' && "Charging"@[0]
        == 'C' && "Charged"@[0] == 'C' && "Low power"@[0] == 'L' && "Shutdown"@[0] == 'S'
        && "Unknown"@[0] == 'U');
}

/// The flags of the supervisor: bit 1 is set in an odd multiple of 2, bit 4 in one of 16, and
/// bits 5, 6 and 7 in one of 32, 64 and 128, of the low sixteen bits. The text names a flag if
/// and only if its bit is set.
pub proof fn law_supervisor_bits(info: i32)
    ensures
        info_bit(info, 1) <==> info as int % 65536 / 2 % 2 == 1,
        info_bit(info, 4) <==> info as int % 65536 / 16 % 2 == 1,
        info_bit(info, 5) <==> info as int % 65536 / 32 % 2 == 1,
        info_bit(info, 6) <==> info as int % 65536 / 64 % 2 == 1,
        info_bit(info, 7) <==> info as int % 65536 / 128 % 2 == 1,
        supervisor_flags(info).contains("Crashed"@) <==> info as int % 65536 / 128 % 2 == 1,
        supervisor_flags(info).contains("Locked"@) <==> info as int % 65536 / 64 % 2 == 1,
        supervisor_flags(info).contains("Tumbled"@) <==> info as int % 65536 / 32 % 2 == 1,
        supervisor_flags(info).contains("Flying"@) <==> info as int % 65536 / 16 % 2 == 1,
        supervisor_flags(info).contains("Armed"@) <==> info as int % 65536 / 2 % 2 == 1,
{
    lemma_pow2_values();
    reveal_strlit("Crashed");
    reveal_strlit("Locked");
    reveal_strlit("Tumbled");
    reveal_strlit("Flying");
    reveal_strlit("Armed");
    assert("Crashed"@[0] == 'C' && "Locked"@[0] == 'L' && "Tumbled"@[0] == 'T' && "Flying"@[0]
        == 'F' && "Armed"@[0] == 'A');
    let flags = supervisor_flags(info);
    let c: int = if info_bit(info, 7) { 1 } else { 0 };
    let l: int = c + (if info_bit(info, 6) { 1int } else { 0 });
    let t: int = l + (if info_bit(info, 5) { 1int } else { 0 });
    let f: int = t + (if info_bit(info, 4) { 1int } else { 0 });
    assert(info_bit(info, 7) ==> flags[0] == "Crashed"@);
    assert(info_bit(info, 6) ==> flags[c] == "Locked"@);
    assert(info_bit(info, 5) ==> flags[l] == "Tumbled"@);
    assert(info_bit(info, 4) ==> flags[t] == "Flying"@);
    assert(info_bit(info, 1) ==> flags[f] == "Armed"@);
}

/// A unit of a configuration bears its name and description, is not connected, and nothing is
/// known of it.
pub proof fn law_fresh_unit(config: UnitConfig)
    ensures
        ({
            let u = configured_unit(config);
            &&& u.name == config.name@
            &&& text::begins_with(u.uri, config.uri@)
            &&& config.description matches Some(d) ==> u.description == d@
            &&& config.description is None ==> u.description.len() == 0
            &&& u.state is Disconnected
            &&& u.serial.len() == 0 && u.platform_type.len() == 0 && u.firmware_version.len() == 0
            &&& u.pos_x == 0 && u.pos_y == 0 && u.pos_z == 0 && u.battery_voltage == 0
            &&& !u.deck_lighthouse && !u.deck_loco && !u.deck_led_top && !u.deck_led_bottom
            &&& u.journal_entry_count == 0 && u.error_message.len() == 0
        }),
{
    assert(uri::with_timeout(config.uri@).take(config.uri@.len() as int) =~= config.uri@);
}

/// Powering a unit down forgets where it was, its battery, power state, link quality, serial
/// number, platform, firmware and journal. Its decks and the rates of the link stay listed, as do
/// its name, address, description, last error, self test and supervisor. Disconnecting forgets
/// the decks too, and for a radio test also the supervisor.
pub proof fn law_forgotten(u: UnitView)
    ensures
        ({
            let off = powered_down(u);
            let gone = disconnected(u);
            let tested = disconnected_for_test(u);
            &&& off.state is Disconnected
            &&& off.pos_x == 0 && off.pos_y == 0 && off.pos_z == 0
            &&& off.battery_voltage == 0 && off.link_quality == 0
            &&& off.pm_state.len() == 0 && off.serial.len() == 0
            &&& off.platform_type.len() == 0 && off.firmware_version.len() == 0
            &&& off.journal_entry_count == 0
            &&& off.deck_lighthouse == u.deck_lighthouse && off.deck_loco == u.deck_loco
            &&& off.deck_led_top == u.deck_led_top && off.deck_led_bottom == u.deck_led_bottom
            &&& off.name == u.name && off.uri == u.uri && off.description == u.description
            &&& off.error_message == u.error_message && off.selftest_passed == u.selftest_passed
            &&& off.identifying == u.identifying
            &&& off.supervisor_info == u.supervisor_info
            &&& off.supervisor_state == u.supervisor_state
            &&& off.uplink_rate == u.uplink_rate && off.downlink_rate == u.downlink_rate
            &&& off.radio_send_rate == u.radio_send_rate && off.avg_retries == u.avg_retries
            &&& off.rssi == u.rssi && off.has_rssi == u.has_rssi
            &&& !gone.deck_lighthouse && !gone.deck_loco && !gone.deck_led_top
                && !gone.deck_led_bottom
            &&& gone == (UnitView {
                deck_lighthouse: false,
                deck_loco: false,
                deck_led_top: false,
                deck_led_bottom: false,
                ..off
            })
            &&& tested.supervisor_info == 0 && tested.supervisor_state.len() == 0
            &&& tested == (UnitView {
                supervisor_info: 0,
                supervisor_state: tested.supervisor_state,
                ..gone
            })
        }),
{
}

/// A unit has to be connected if and only if it is none of connected, charging, charged, flying
/// and crashed.
pub proof fn law_states_online(s: UnitState)
    ensures
        needs_connection(s) <==> !(s is Connected || s is Charging || s is Charged || s is Flying
            || s is Crashed),
{
}

/// The words of a processor number stand one after another in its serial number, eight digits
/// each.
pub proof fn law_serial_words(id: (u32, u32, u32))
    ensures
        serial_of(id).len() == 24,
        serial_of(id).subrange(0, 8) == text::hex(id.0 as nat, 8, true),
        serial_of(id).subrange(8, 16) == text::hex(id.1 as nat, 8, true),
        serial_of(id).subrange(16, 24) == text::hex(id.2 as nat, 8, true),
{
    lemma_hex_words(id.0 as nat);
    lemma_hex_words(id.1 as nat);
    lemma_hex_words(id.2 as nat);
    assert(serial_of(id).subrange(0, 8) =~= text::hex(id.0 as nat, 8, true));
    assert(serial_of(id).subrange(8, 16) =~= text::hex(id.1 as nat, 8, true));
    assert(serial_of(id).subrange(16, 24) =~= text::hex(id.2 as nat, 8, true));
}

proof fn lemma_hex_words(n: nat)
    ensures
        text::hex(n, 8, true).len() == 8,
{
    reveal_with_fuel(text::hex, 9);
}

/// The row of a unit: the symbol; the state, or the error where there is one; the name, the
/// address, the three coordinates, the battery, the link, the power state, the flags of the
/// supervisor, and a tick for each deck that is there.
pub proof fn law_row_columns(u: UnitView, t: RowTexts, symbol: Seq<char>)
    ensures
        ({
            let row = row_of(u, t, symbol);
            &&& row.len() == 15
            &&& row[0] == symbol
            &&& u.state is Error ==> row[1] == u.error_message
            &&& !(u.state is Error) ==> row[1] == state_name(u.state)
            &&& row[2] == u.name && row[3] == u.uri
            &&& row[4] == t.pos_x@ && row[5] == t.pos_y@ && row[6] == t.pos_z@
            &&& row[7].last() == 'V' && row[7].drop_last() == t.battery@
            &&& row[8].last() == '%' && row[8].drop_last() == text::signed_decimal(
                t.link_percent as int,
            )
            &&& row[9] == u.pm_state
            &&& row[10] == supervisor_name(u.supervisor_info)
            &&& row[11].len() > 0 <==> u.deck_lighthouse
            &&& row[12].len() > 0 <==> u.deck_loco
            &&& row[13].len() > 0 <==> u.deck_led_top
            &&& row[14].len() > 0 <==> u.deck_led_bottom
        }),
{
    reveal_strlit("V");
    reveal_strlit("%");
    reveal_strlit("✓");
    reveal_strlit("");
    let row = row_of(u, t, symbol);
    assert(row[7].drop_last() =~= t.battery@);
    assert(row[8].drop_last() =~= text::signed_decimal(t.link_percent as int));
}

/// A column of the table is sorted by what it shows: units that differ in one value alone are
/// told apart in the column of that value and in no other one.
pub proof fn law_column_sorts(a: UnitView, b: UnitView, col: int)
    ensures
        b == (UnitView { name: b.name, ..a }) ==> (column_less(a, b, col) <==> col == 2
            && text::precedes(a.name, b.name)),
        b == (UnitView { uri: b.uri, ..a }) ==> (column_less(a, b, col) <==> col == 3
            && text::precedes(a.uri, b.uri)),
        b == (UnitView { pos_x: b.pos_x, ..a }) ==> (column_less(a, b, col) <==> col == 4
            && float_bits::single_less(a.pos_x, b.pos_x)),
        b == (UnitView { pos_y: b.pos_y, ..a }) ==> (column_less(a, b, col) <==> col == 5
            && float_bits::single_less(a.pos_y, b.pos_y)),
        b == (UnitView { pos_z: b.pos_z, ..a }) ==> (column_less(a, b, col) <==> col == 6
            && float_bits::single_less(a.pos_z, b.pos_z)),
        b == (UnitView { battery_voltage: b.battery_voltage, ..a }) ==> (column_less(a, b, col)
            <==> col == 7 && float_bits::single_less(a.battery_voltage, b.battery_voltage)),
        b == (UnitView { link_quality: b.link_quality, ..a }) ==> (column_less(a, b, col) <==> col
            == 8 && float_bits::single_less(a.link_quality, b.link_quality)),
        b == (UnitView { pm_state: b.pm_state, ..a }) ==> (column_less(a, b, col) <==> col == 9
            && text::precedes(a.pm_state, b.pm_state)),
        b == (UnitView { supervisor_info: b.supervisor_info, ..a }) ==> (column_less(a, b, col)
            <==> col == 10 && a.supervisor_info < b.supervisor_info),
        b == (UnitView { deck_lighthouse: b.deck_lighthouse, ..a }) ==> (column_less(a, b, col)
            <==> col == 11 && !a.deck_lighthouse && b.deck_lighthouse),
        b == (UnitView { deck_loco: b.deck_loco, ..a }) ==> (column_less(a, b, col) <==> col == 12
            && !a.deck_loco && b.deck_loco),
        b == (UnitView { deck_led_top: b.deck_led_top, ..a }) ==> (column_less(a, b, col) <==> col
            == 13 && !a.deck_led_top && b.deck_led_top),
        b == (UnitView { deck_led_bottom: b.deck_led_bottom, ..a }) ==> (column_less(a, b, col)
            <==> col == 14 && !a.deck_led_bottom && b.deck_led_bottom),
        b == (UnitView { state: b.state, ..a }) && column_less(a, b, col) ==> col == 0 || col == 1,
        (col == 0 || col == 1) && a.state is Disconnected ==> (column_less(a, b, col) <==> !(b.state is Disconnected)),
        (col == 0 || col == 1) && b.state is Error ==> (column_less(a, b, col) <==> !(a.state is Error)),
        (col == 0 || col == 1) && a.state is Connected ==> (column_less(a, b, col) <==> b.state is Charging
            || b.state is Charged || b.state is Flying || b.state is Crashed || b.state is Error),
        (col == 0 || col == 1) && a.state is Charged ==> (column_less(a, b, col) <==> b.state is Flying
            || b.state is Crashed || b.state is Error),
        (col == 0 || col == 1) && a.state is Charging ==> (column_less(a, b, col) <==> b.state is Charged
            || b.state is Flying || b.state is Crashed || b.state is Error),
        (col == 0 || col == 1) && a.state is Flying ==> (column_less(a, b, col) <==> b.state is Crashed
            || b.state is Error),
{
    text::lemma_precedes_total(a.name, a.name);
    text::lemma_precedes_total(a.uri, a.uri);
    text::lemma_precedes_total(a.pm_state, a.pm_state);
}

/// A table that is sorted downwards is compared the other way round.
pub proof fn law_sorted_downwards(units: Seq<UnitView>, col: int, a: int, b: int)
    ensures
        table_less(units, col, false)(a, b) == table_less(units, col, true)(b, a),
        table_less(units, col, true)(a, b) == column_less(units[a], units[b], col),
{
}

/// One more unit adds one to the numbers that it belongs to, and to no other: to the connected
/// ones unless it is disconnected or in error, to the healthy ones if it is connected and passed
/// its self test, to those on battery if it is connected or flying, to those charging and to
/// those charged.
pub proof fn law_unit_counted(units: Seq<UnitData>, u: UnitData)
    ensures
        ({
            let more = units.push(u);
            let s = u.state;
            let online = !(s is Disconnected || s is Error);
            &&& count_of(more, is_online()) == count_of(units, is_online()) + (if online {
                1nat
            } else {
                0
            })
            &&& count_of(more, is_healthy()) == count_of(units, is_healthy()) + (if online
                && u.selftest_passed {
                1nat
            } else {
                0
            })
            &&& count_of(more, on_battery()) == count_of(units, on_battery()) + (if s is Connected
                || s is Flying {
                1nat
            } else {
                0
            })
            &&& count_of(more, is_charging()) == count_of(units, is_charging()) + (if s is Charging {
                1nat
            } else {
                0
            })
            &&& count_of(more, is_charged()) == count_of(units, is_charged()) + (if s is Charged {
                1nat
            } else {
                0
            })
        }),
        count_of(Seq::empty(), is_online()) == 0,
        count_of(Seq::empty(), is_healthy()) == 0,
        count_of(Seq::empty(), on_battery()) == 0,
        count_of(Seq::empty(), is_charging()) == 0,
        count_of(Seq::empty(), is_charged()) == 0,
{
    assert(units.push(u).drop_last() =~= units);
}

/// A reconnect goes to exactly the units that are disconnected or in error, in order.
pub proof fn law_reconnected(units: Seq<UnitData>, i: int)
    requires
        0 <= i < units.len(),
    ensures
        lists::positions_where(units.len(), offline_filter(units)).contains(i)
            <==> units[i].state is Disconnected || units[i].state is Error,
{
    lists::lemma_positions_where(units.len(), offline_filter(units));
    let keep = offline_filter(units);
    assert(keep(i) == needs_connection(units[i].state));
}

} // verus!
