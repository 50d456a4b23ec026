//! What goes over the radio besides connections: bootloader commands, broadcasts to all units,
//! and the test of every channel.

use crate::text;
use crate::uri::{is_radio_channel, parse_radio_uri};
use crate::uri;
use vstd::prelude::*;
use vstd::string::*;

verus! {

// ---------------------------------------------------------------------------
// Commands to the radio chip of a unit
// ---------------------------------------------------------------------------

/// The radio chip of a unit, as addressed by link-level commands.
pub const TARGET_NRF51: u8 = 0xFE;

/// A command to the radio chip.
#[derive(Debug, Clone, Copy, PartialEq, Eq, Structural)]
pub enum PowerCommand {
    /// Switch everything off.
    AllOff,
    /// Put the main processor and the decks to sleep.
    SysOff,
    /// Wake them up.
    SysOn,
    /// Announce a reset.
    ResetInit,
    /// Reset into the firmware.
    ResetToFirmware,
}

/// The packet of a command.
pub open spec fn command_bytes(command: PowerCommand) -> Seq<u8> {
    match command {
        PowerCommand::AllOff => seq![0xFFu8, 0xFEu8, 0x01u8],
        PowerCommand::SysOff => seq![0xFFu8, 0xFEu8, 0x02u8],
        PowerCommand::SysOn => seq![0xFFu8, 0xFEu8, 0x03u8],
        PowerCommand::ResetInit => seq![0xFFu8, 0xFEu8, 0xFFu8],
        PowerCommand::ResetToFirmware => seq![0xFFu8, 0xFEu8, 0xF0u8, 0x01u8],
    }
}

/// The packet of a command.
pub fn send_bootloader_command(command: PowerCommand) -> (packet: Vec<u8>)
    ensures
        packet@ == command_bytes(command),
{
    let mut packet: Vec<u8> = Vec::new();
    packet.push(0xFF);
    packet.push(TARGET_NRF51);
    match command {
        PowerCommand::AllOff => packet.push(0x01),
        PowerCommand::SysOff => packet.push(0x02),
        PowerCommand::SysOn => packet.push(0x03),
        PowerCommand::ResetInit => packet.push(0xFF),
        PowerCommand::ResetToFirmware => {
            packet.push(0xF0);
            packet.push(0x01);
        },
    }
    assert(packet@ =~= command_bytes(command));
    packet
}

/// What the power buttons do to a unit.
#[derive(Debug, Clone, Copy, PartialEq, Eq, Structural)]
pub enum PowerAction {
    Reboot,
    PowerOff,
    Sleep,
    Wake,
}

/// The commands of an action, in order.
pub open spec fn commands_of(action: PowerAction) -> Seq<PowerCommand> {
    match action {
        PowerAction::Reboot => seq![PowerCommand::ResetInit, PowerCommand::ResetToFirmware],
        PowerAction::PowerOff => seq![PowerCommand::AllOff],
        PowerAction::Sleep => seq![PowerCommand::SysOff],
        PowerAction::Wake => seq![PowerCommand::SysOn],
    }
}

/// The commands of an action, in order.
pub fn power_commands(action: PowerAction) -> (commands: Vec<PowerCommand>)
    ensures
        commands@ == commands_of(action),
{
    let mut commands: Vec<PowerCommand> = Vec::new();
    match action {
        PowerAction::Reboot => {
            commands.push(PowerCommand::ResetInit);
            commands.push(PowerCommand::ResetToFirmware);
        },
        PowerAction::PowerOff => commands.push(PowerCommand::AllOff),
        PowerAction::Sleep => commands.push(PowerCommand::SysOff),
        PowerAction::Wake => commands.push(PowerCommand::SysOn),
    }
    assert(commands@ =~= commands_of(action));
    commands
}

/// Whether a unit is disconnected after an action: sleeping and waking leave it connected.
pub fn disconnects(action: PowerAction) -> (r: bool)
    ensures
        r == (action == PowerAction::Reboot || action == PowerAction::PowerOff),
{
    match action {
        PowerAction::Reboot => true,
        PowerAction::PowerOff => true,
        PowerAction::Sleep => false,
        PowerAction::Wake => false,
    }
}

// ---------------------------------------------------------------------------
// Synchronised blinking
// ---------------------------------------------------------------------------

/// The address that every unit listens to.
pub fn broadcast_address() -> (address: [u8; 5])
    ensures
        address@ == seq![0xffu8, 0xe7u8, 0xe7u8, 0xe7u8, 0xe7u8],
{
    let address: [u8; 5] = [0xff, 0xe7, 0xe7, 0xe7, 0xe7];
    assert(address@ =~= seq![0xffu8, 0xe7u8, 0xe7u8, 0xe7u8, 0xe7u8]);
    address
}

/// The broadcast that asks for a blink after `delay_ms`: a peer-to-peer packet on port 0 with the
/// command to execute function 0 and the delay, low byte first.
pub open spec fn blink_bytes(delay_ms: u16) -> Seq<u8> {
    seq![
        0xF3u8,
        0x80u8,
        0x01u8,
        0x00u8,
        (delay_ms % 256) as u8,
        (delay_ms / 256) as u8,
    ]
}

/// The broadcast that asks for a blink after `delay_ms`.
pub fn blink_packet(delay_ms: u16) -> (packet: Vec<u8>)
    ensures
        packet@ == blink_bytes(delay_ms),
{
    let mut packet: Vec<u8> = Vec::new();
    packet.push(0xF3);
    packet.push(0x80);
    packet.push(0x01);
    packet.push(0x00);
    packet.push((delay_ms % 256) as u8);
    packet.push((delay_ms / 256) as u8);
    assert(packet@ =~= blink_bytes(delay_ms));
    packet
}

/// A unit reads the delay back from the packet.
pub proof fn law_blink_delay(delay_ms: u16)
    ensures
        blink_bytes(delay_ms)[4] as nat + 256 * (blink_bytes(delay_ms)[5] as nat) == delay_ms,
{
}

/// The delays of the repeated broadcasts: each is 20 ms after the one before, so that all of them
/// name the same moment.
pub fn blink_delays() -> (delays: Vec<u16>)
    ensures
        delays@ == seq![100u16, 80u16, 60u16, 40u16, 20u16],
        forall|i: int| 0 <= i < delays@.len() ==> #[trigger] delays@[i] + 20 * i == 100,
{
    let mut delays: Vec<u16> = Vec::new();
    delays.push(100);
    delays.push(80);
    delays.push(60);
    delays.push(40);
    delays.push(20);
    assert(delays@ =~= seq![100u16, 80u16, 60u16, 40u16, 20u16]);
    delays
}

/// What is left of five seconds once `elapsed_ms` have passed.
pub open spec fn blink_remaining(elapsed_ms: nat) -> nat {
    if elapsed_ms >= 5000 {
        0
    } else {
        (5000 - elapsed_ms) as nat
    }
}

/// Every broadcast of a delayed blink names the same moment, five seconds after the start; from
/// that moment on there is none.
pub proof fn law_delayed_blink(elapsed_ms: nat)
    ensures
        blink_remaining(elapsed_ms) > 0 <==> elapsed_ms < 5000,
        elapsed_ms < 5000 ==> elapsed_ms + blink_remaining(elapsed_ms) == 5000,
{
}

/// The broadcast for a blink five seconds after the start, when `elapsed_ms` have passed; none
/// once the time is up.
pub fn delayed_blink_packet(elapsed_ms: u64) -> (packet: Option<Vec<u8>>)
    ensures
        packet is None <==> blink_remaining(elapsed_ms as nat) == 0,
        packet matches Some(p) ==> p@ == blink_bytes(blink_remaining(elapsed_ms as nat) as u16),
{
    if elapsed_ms >= 5000 {
        None
    } else {
        Some(blink_packet((5000 - elapsed_ms) as u16))
    }
}

/// The channels of the list that the radio has.
pub open spec fn usable(list: Seq<(usize, u8)>) -> Seq<(usize, u8)>
    decreases list.len(),
{
    if list.len() == 0 {
        Seq::empty()
    } else if list.last().1 < 126 {
        usable(list.drop_last()).push(list.last())
    } else {
        usable(list.drop_last())
    }
}

/// The channels that a broadcast goes out on.
pub fn broadcast_channels(list: &Vec<(usize, u8)>) -> (r: Vec<(usize, u8)>)
    ensures
        r@ == usable(list@),
{
    let mut r: Vec<(usize, u8)> = Vec::new();
    let mut i: usize = 0;
    assert(list@.take(0) =~= Seq::empty());
    while i < list.len()
        invariant
            i <= list@.len(),
            r@ == usable(list@.take(i as int)),
        decreases list.len() - i,
    {
        assert(list@.take(i + 1).drop_last() =~= list@.take(i as int));
        if is_radio_channel(list[i].1) {
            r.push(list[i]);
        }
        i = i + 1;
    }
    assert(list@.take(list@.len() as int) =~= list@);
    r
}

// ---------------------------------------------------------------------------
// The channel test
// ---------------------------------------------------------------------------

/// The number of channels tested.
pub const NUM_CHANNELS: u8 = 81;

/// Packets sent to measure one channel.
pub const PACKETS_PER_CHANNEL: usize = 20;

/// How often a command that may get lost is repeated.
const COMMAND_REPEATS: usize = 50;

const SAFELINK_REPEATS: usize = 10;

/// All packets of a test: switching safelink off, the commands and probes of every channel, and
/// going back to the first channel.
pub const TEST_PACKETS: usize = 5730;

/// A packet of the test and the channel it goes out on.
#[derive(Debug, Clone)]
pub struct TestPacket {
    pub channel: u8,
    pub bytes: Vec<u8>,
}

/// What one packet of the test is for.
#[derive(Debug, Clone, Copy, PartialEq, Eq, Structural)]
pub enum TestPart {
    /// Switch safelink off.
    SafelinkOff,
    /// Send the unit to this channel.
    GoTo(u8),
    /// Measure this channel.
    Probe(u8),
    /// Send the unit back to where it was.
    GoBack,
}

/// What the packet at position `n` of the test is for.
pub open spec fn part_at(n: int) -> TestPart {
    let k = n - 10;
    if n < 10 {
        TestPart::SafelinkOff
    } else if k < 81 * 70 {
        if k % 70 < 50 {
            TestPart::GoTo((k / 70) as u8)
        } else {
            TestPart::Probe((k / 70) as u8)
        }
    } else {
        TestPart::GoBack
    }
}

/// The channel that a packet goes out on when the unit started on `original`.
pub open spec fn channel_of(part: TestPart, original: u8) -> u8 {
    match part {
        TestPart::SafelinkOff => original,
        TestPart::GoTo(c) => if c == 0 {
            original
        } else {
            (c - 1) as u8
        },
        TestPart::Probe(c) => c,
        TestPart::GoBack => 80,
    }
}

/// The bytes of a packet when the unit started on `original`.
pub open spec fn bytes_of(part: TestPart, original: u8) -> Seq<u8> {
    match part {
        TestPart::SafelinkOff => seq![0xffu8, 0x05u8, 0x00u8],
        TestPart::GoTo(c) => seq![0xffu8, 0x03u8, 0x01u8, c],
        TestPart::Probe(_) => seq![0xffu8],
        TestPart::GoBack => seq![0xffu8, 0x03u8, 0x01u8, original],
    }
}

/// The channel that a packet sends the unit to, if it does.
pub open spec fn sends_to(part: TestPart, original: u8) -> Option<u8> {
    match part {
        TestPart::GoTo(c) => Some(c),
        TestPart::GoBack => Some(original),
        _ => None,
    }
}

/// Where the unit is before packet `n`, if it took up every command.
pub open spec fn unit_channel(n: int, original: u8) -> u8
    decreases n,
{
    if n <= 0 {
        original
    } else {
        match sends_to(part_at(n - 1), original) {
            Some(c) => c,
            None => unit_channel(n - 1, original),
        }
    }
}

/// The channels of the unit during the test: a command repeats on the channel the unit came
/// from, a probe goes out on the channel it was sent to, and at the end it is sent back to where
/// it started.
pub proof fn law_test_follows_unit(n: int, original: u8)
    requires
        0 <= n < 5730,
    ensures
        part_at(n) is Probe ==> channel_of(part_at(n), original) == unit_channel(n, original),
        (part_at(n) is GoTo || part_at(n) is GoBack) && (n == 10 || part_at(n) != part_at(n - 1))
            ==> channel_of(part_at(n), original) == unit_channel(n, original),
        unit_channel(5730, original) == original,
{
    lemma_unit_channel(n, original);
    lemma_unit_channel(5730, original);
}

proof fn lemma_unit_channel(n: int, original: u8)
    requires
        0 <= n <= 5730,
    ensures
        unit_channel(n, original) == (if n <= 10 {
            original
        } else if n <= 10 + 81 * 70 {
            ((n - 11) / 70) as u8
        } else {
            original
        }),
    decreases n,
{
    if n > 0 {
        lemma_unit_channel(n - 1, original);
        let k = n - 11;
        if n > 11 && n <= 10 + 81 * 70 && k % 70 >= 50 {
            assert((k - 1) / 70 == k / 70);
        }
    }
}

/// What was measured on one channel.
#[derive(Debug, Clone, Copy, PartialEq, Eq, Structural)]
pub struct ChannelTally {
    /// Packets that the unit acknowledged.
    pub acks: usize,
    /// The signal strengths of the acknowledgements that carried one, added up.
    pub rssi_sum: u64,
    /// How many carried one.
    pub rssi_count: usize,
}

/// An answer to a packet: whether the unit acknowledged it, and the signal strength if known.
#[derive(Debug, Clone, Copy, PartialEq, Eq, Structural)]
pub struct Ack {
    pub received: bool,
    pub rssi: Option<u8>,
}

/// A tally with one more answer; a packet that could not be sent has none.
pub open spec fn counted(tally: ChannelTally, answer: Option<Ack>) -> ChannelTally {
    match answer {
        Some(ack) => if ack.received {
            match ack.rssi {
                Some(rssi) => ChannelTally {
                    acks: (tally.acks + 1) as usize,
                    rssi_sum: (tally.rssi_sum + rssi) as u64,
                    rssi_count: (tally.rssi_count + 1) as usize,
                },
                None => ChannelTally { acks: (tally.acks + 1) as usize, ..tally },
            }
        } else {
            tally
        },
        None => tally,
    }
}

/// The test of all channels with one unit.
pub struct ChannelTest {
    original: u8,
    address: [u8; 5],
    sent: usize,
    tallies: Vec<ChannelTally>,
}

/// Nothing measured yet.
pub open spec fn no_tally() -> ChannelTally {
    ChannelTally { acks: 0, rssi_sum: 0, rssi_count: 0 }
}

/// The packets measured so far on channel `c` when `sent` packets went out.
pub open spec fn probes_done(sent: int, c: int) -> int {
    let k = sent - 10 - 70 * c - 50;
    if k < 0 {
        0
    } else if k > 20 {
        20
    } else {
        k
    }
}

/// Why a test cannot be made.
#[derive(Debug, Clone, Copy, PartialEq, Eq, Structural)]
pub enum TestRefusal {
    InvalidUri,
    NoRadio,
    InvalidChannel,
}

impl TestRefusal {
    /// What the status line says.
    pub fn text(&self) -> (s: String)
        ensures
            s@ == (match *self {
                TestRefusal::InvalidUri => "Error: invalid URI"@,
                TestRefusal::NoRadio => "Error: could not open radio"@,
                TestRefusal::InvalidChannel => "Error: invalid channel in URI"@,
            }),
    {
        match *self {
            TestRefusal::InvalidUri => "Error: invalid URI".to_string(),
            TestRefusal::NoRadio => "Error: could not open radio".to_string(),
            TestRefusal::InvalidChannel => "Error: invalid channel in URI".to_string(),
        }
    }
}

impl ChannelTest {
    /// The channel that the unit came from.
    pub closed spec fn original(&self) -> u8 {
        self.original
    }

    /// The address of the unit.
    pub closed spec fn address(&self) -> Seq<u8> {
        self.address@
    }

    /// How many packets went out.
    pub closed spec fn sent(&self) -> int {
        self.sent as int
    }

    /// What was measured, by channel.
    pub closed spec fn tallies(&self) -> Seq<ChannelTally> {
        self.tallies@
    }

    /// There is a tally for every channel, with no more answers than probes.
    pub open spec fn wf(&self) -> bool {
        &&& self.original() < 126
        &&& 0 <= self.sent() <= 5730
        &&& self.tallies().len() == 81
        &&& forall|c: int|
            0 <= c < 81 ==> {
                &&& (#[trigger] self.tallies()[c]).rssi_count <= self.tallies()[c].acks
                &&& self.tallies()[c].acks <= probes_done(self.sent(), c)
                &&& self.tallies()[c].rssi_sum <= 255 * self.tallies()[c].rssi_count
            }
    }

    /// Prepares the test of a unit on the given channel and address, once its radio is open.
    pub fn new(channel: u8, address: [u8; 5]) -> (r: Result<ChannelTest, TestRefusal>)
        ensures
            match r {
                Ok(test) => {
                    &&& channel < 126
                    &&& test.wf()
                    &&& test.original() == channel
                    &&& test.address() == address@
                    &&& test.sent() == 0
                    &&& forall|c: int| 0 <= c < 81 ==> #[trigger] test.tallies()[c] == no_tally()
                },
                Err(e) => channel >= 126 && e == TestRefusal::InvalidChannel,
            },
    {
        if !is_radio_channel(channel) {
            return Err(TestRefusal::InvalidChannel);
        }
        let mut tallies: Vec<ChannelTally> = Vec::new();
        let mut i: u8 = 0;
        while i < NUM_CHANNELS
            invariant
                i <= 81,
                tallies@.len() == i,
                forall|c: int| 0 <= c < i ==> #[trigger] tallies@[c] == no_tally(),
            decreases NUM_CHANNELS - i,
        {
            tallies.push(ChannelTally { acks: 0, rssi_sum: 0, rssi_count: 0 });
            i = i + 1;
        }
        Ok(ChannelTest { original: channel, address, sent: 0, tallies })
    }

    /// The packet to send next; none when the test is complete.
    pub fn next_packet(&self) -> (packet: Option<TestPacket>)
        requires
            self.wf(),
        ensures
            packet is None <==> self.sent() == 5730,
            packet matches Some(p) ==> {
                &&& p.channel == channel_of(part_at(self.sent()), self.original())
                &&& p.bytes@ == bytes_of(part_at(self.sent()), self.original())
            },
    {
        if self.sent >= TEST_PACKETS {
            return None;
        }
        let mut bytes: Vec<u8> = Vec::new();
        bytes.push(0xff);
        let channel: u8 = match self.part() {
            TestPart::SafelinkOff => {
                bytes.push(0x05);
                bytes.push(0x00);
                self.original
            },
            TestPart::GoTo(c) => {
                bytes.push(0x03);
                bytes.push(0x01);
                bytes.push(c);
                if c == 0 {
                    self.original
                } else {
                    c - 1
                }
            },
            TestPart::Probe(c) => c,
            TestPart::GoBack => {
                bytes.push(0x03);
                bytes.push(0x01);
                bytes.push(self.original);
                80
            },
        };
        assert(bytes@ =~= bytes_of(part_at(self.sent()), self.original()));
        Some(TestPacket { channel, bytes })
    }

    fn part(&self) -> (part: TestPart)
        requires
            self.sent < 5730,
        ensures
            part == part_at(self.sent as int),
    {
        if self.sent < SAFELINK_REPEATS {
            return TestPart::SafelinkOff;
        }
        let k: usize = self.sent - SAFELINK_REPEATS;
        if k >= 81 * 70 {
            return TestPart::GoBack;
        }
        let c: u8 = (k / 70) as u8;
        if k % 70 < COMMAND_REPEATS {
            TestPart::GoTo(c)
        } else {
            TestPart::Probe(c)
        }
    }

    /// Takes the answer to the packet just sent. Only the answers to probes count. Tells which
    /// channel is finished, if one is.
    pub fn on_answer(&mut self, answer: Option<Ack>) -> (finished: Option<u8>)
        requires
            old(self).wf(),
            old(self).sent() < 5730,
        ensures
            final(self).wf(),
            final(self).original() == old(self).original(),
            final(self).address() == old(self).address(),
            final(self).sent() == old(self).sent() + 1,
            final(self).tallies() == (match part_at(old(self).sent()) {
                TestPart::Probe(c) => old(self).tallies().update(
                    c as int,
                    counted(old(self).tallies()[c as int], answer),
                ),
                _ => old(self).tallies(),
            }),
            finished == (match part_at(old(self).sent()) {
                TestPart::Probe(c) => if part_at(old(self).sent() + 1) == TestPart::Probe(c) {
                    None
                } else {
                    Some(c)
                },
                _ => None,
            }),
    {
        let part = self.part();
        let ghost before = self.tallies@;
        let ghost n = self.sent as int;
        proof {
            lemma_probes_grow(n);
        }
        let mut finished: Option<u8> = None;
        if let TestPart::Probe(c) = part {
            let i: usize = c as usize;
            let mut tally = self.tallies[i];
            assert(tally == before[c as int]);
            assert(tally.acks < 20);
            if let Some(ack) = answer {
                if ack.received {
                    tally.acks = tally.acks + 1;
                    if let Some(rssi) = ack.rssi {
                        tally.rssi_sum = tally.rssi_sum + rssi as u64;
                        tally.rssi_count = tally.rssi_count + 1;
                    }
                }
            }
            self.tallies[i] = tally;
            if (self.sent - SAFELINK_REPEATS) % 70 == 69 {
                finished = Some(c);
            }
        }
        self.sent = self.sent + 1;
        proof {
            assert forall|c: int| 0 <= c < 81 implies {
                &&& (#[trigger] self.tallies@[c]).rssi_count <= self.tallies@[c].acks
                &&& self.tallies@[c].acks <= probes_done(n + 1, c)
                &&& self.tallies@[c].rssi_sum <= 255 * self.tallies@[c].rssi_count
            } by {
                assert(before[c].acks <= probes_done(n, c));
            }
        }
        finished
    }

    /// What was measured on channel `c`.
    pub fn tally(&self, c: u8) -> (tally: ChannelTally)
        requires
            self.wf(),
            c < 81,
        ensures
            tally == self.tallies()[c as int],
    {
        self.tallies[c as usize]
    }
}

proof fn lemma_probes_grow(n: int)
    requires
        0 <= n < 5730,
    ensures
        forall|c: int| 0 <= c < 81 ==> #[trigger] probes_done(n, c) <= probes_done(n + 1, c) <= 20,
        part_at(n) matches TestPart::Probe(c) ==> {
            &&& c < 81
            &&& probes_done(n, c as int) + 1 == probes_done(n + 1, c as int)
            &&& part_at(n + 1) != TestPart::Probe(c) <==> (n - 10) % 70 == 69
        },
{
    let k = n - 10;
    if 0 <= k < 81 * 70 {
        assert(k == 70 * (k / 70) + k % 70);
        assert((k + 1) / 70 == k / 70 || (k % 70 == 69 && (k + 1) % 70 == 0));
    }
}

/// Reads the URI of the unit to test: which radio to open, and its channel and address.
pub fn run_radio_channel_test(uri: &str) -> (r: Result<(usize, u8, [u8; 5]), TestRefusal>)
    requires
        uri::cuts_cleanly(uri@),
    ensures
        match r {
            Ok(target) => uri::is_target(Some(target), uri::radio_target(uri@)),
            Err(e) => e == TestRefusal::InvalidUri && uri::radio_target(uri@) is None,
        },
{
    match parse_radio_uri(uri) {
        Some(target) => Ok(target),
        None => Err(TestRefusal::InvalidUri),
    }
}

/// The status line once channel `c` is measured.
pub fn channel_status(c: u8) -> (s: String)
    requires
        c < 81,
    ensures
        s@ == "Testing channel "@ + text::decimal((c + 1) as nat) + "/"@ + text::decimal(81) + "..."@,
{
    let mut s = "Testing channel ".to_string();
    text::push_decimal(&mut s, c as u64 + 1);
    s.append("/");
    text::push_decimal(&mut s, NUM_CHANNELS as u64);
    s.append("...");
    s
}

/// Each action of the power buttons sends its own command: switching off sends the one that
/// switches everything off, sleeping the one that puts the system to sleep, waking the one that
/// wakes it; a reboot announces the reset and then resets into the firmware.
pub proof fn law_power_actions(action: PowerAction)
    ensures
        commands_of(action).contains(PowerCommand::AllOff) <==> action is PowerOff,
        commands_of(action).contains(PowerCommand::SysOff) <==> action is Sleep,
        commands_of(action).contains(PowerCommand::SysOn) <==> action is Wake,
        commands_of(action).contains(PowerCommand::ResetToFirmware) <==> action is Reboot,
        commands_of(action).first() == PowerCommand::ResetInit <==> action is Reboot,
        commands_of(action).last() == PowerCommand::ResetToFirmware <==> action is Reboot,
        commands_of(action).len() == (if action is Reboot {
            2int
        } else {
            1
        }),
{
    let all = commands_of(action);
    assert(all[0] == all.first());
    assert(all.len() == 2 ==> all[1] == all.last());
}

/// A broadcast goes out on every channel of the list that the radio has, that is those below 126,
/// and on no other.
pub proof fn law_usable_channels(list: Seq<(usize, u8)>, c: (usize, u8))
    ensures
        usable(list).contains(c) <==> list.contains(c) && c.1 < 126,
        usable(list).len() <= list.len(),
        (forall|i: int| 0 <= i < list.len() ==> (#[trigger] list[i]).1 < 126) ==> usable(list)
            == list,
    decreases list.len(),
{
    if list.len() > 0 {
        let before = list.drop_last();
        law_usable_channels(before, c);
        let kept = usable(before);
        let all = usable(list);
        assert(forall|i: int| 0 <= i < before.len() ==> before[i] == list[i]);
        if list.contains(c) {
            let i = list.index_of(c);
            if i < before.len() {
                assert(before[i] == c);
            }
        }
        if before.contains(c) {
            let i = before.index_of(c);
            assert(list[i] == c);
        }
        if list.last().1 < 126 {
            assert(all == kept.push(list.last()));
            if kept.contains(c) {
                let i = kept.index_of(c);
                assert(all[i] == c);
            }
            if list.last() == c {
                assert(all[kept.len() as int] == c);
                assert(list[list.len() - 1] == c);
            }
            if all.contains(c) {
                let i = all.index_of(c);
                if i < kept.len() {
                    assert(kept[i] == c);
                } else {
                    assert(list[list.len() - 1] == c);
                }
            }
        }
        if forall|i: int| 0 <= i < list.len() ==> (#[trigger] list[i]).1 < 126 {
            assert(list[list.len() - 1].1 < 126);
            assert(all =~= list);
        }
    } else {
        assert(usable(list) =~= list);
    }
}

/// The plan of a test: ten packets switch safelink off; for each channel in turn fifty packets
/// send the unit there and twenty measure it; fifty send it back.
pub proof fn law_plan_of_test(n: int, c: u8)
    requires
        0 <= n < 5730,
        c < 81,
    ensures
        part_at(n) is SafelinkOff <==> n < 10,
        part_at(n) == TestPart::GoTo(c) <==> 10 + 70 * c <= n < 60 + 70 * c,
        part_at(n) == TestPart::Probe(c) <==> 60 + 70 * c <= n < 80 + 70 * c,
        part_at(n) is GoBack <==> n >= 5680,
{
    let k = n - 10;
    if 10 <= n < 5680 {
        assert(k == 70 * (k / 70) + k % 70) by (nonlinear_arith)
            requires
                k == n - 10,
        ;
        assert(0 <= k / 70 < 81);
    }
}

/// A packet that sends the unit somewhere names that channel in its last byte, and no other
/// packet does; a probe is empty but for its head.
pub proof fn law_packets_of_test(part: TestPart, original: u8)
    ensures
        sends_to(part, original) matches Some(c) ==> bytes_of(part, original) == seq![
            0xffu8,
            0x03u8,
            0x01u8,
            c,
        ],
        sends_to(part, original) is None <==> part is SafelinkOff || part is Probe,
        part matches TestPart::GoTo(c) ==> sends_to(part, original) == Some(c),
        part is GoBack ==> sends_to(part, original) == Some(original),
        part is Probe ==> bytes_of(part, original).len() == 1,
        part is SafelinkOff ==> channel_of(part, original) == original,
{
}

/// Only an acknowledgement counts, once; the signal strength is added if the answer carries one.
pub proof fn law_answer_counted(tally: ChannelTally, answer: Option<Ack>)
    requires
        tally.acks < 20,
        tally.rssi_count <= tally.acks,
        tally.rssi_sum <= 255 * tally.rssi_count,
    ensures
        ({
            let now = counted(tally, answer);
            let received = answer is Some && answer->0.received;
            &&& now.acks == tally.acks + (if received {
                1int
            } else {
                0
            })
            &&& !received ==> now == tally
            &&& received && answer->0.rssi is None ==> now.rssi_sum == tally.rssi_sum
                && now.rssi_count == tally.rssi_count
            &&& received && answer->0.rssi is Some ==> now.rssi_sum == tally.rssi_sum
                + answer->0.rssi->0 && now.rssi_count == tally.rssi_count + 1
        }),
{
}

/// Every power command goes to the radio processor of the unit. Off, sleep and wake are numbered
/// from one; a reset is announced and then made, into the firmware.
pub proof fn law_command_packets(command: PowerCommand)
    ensures
        command_bytes(command)[0] == 0xff && command_bytes(command)[1] == 0xfe,
        command_bytes(command).len() == (if command is ResetToFirmware {
            4int
        } else {
            3
        }),
        command is AllOff <==> command_bytes(command)[2] == 1,
        command is SysOff <==> command_bytes(command)[2] == 2,
        command is SysOn <==> command_bytes(command)[2] == 3,
        command is ResetInit <==> command_bytes(command)[2] == 0xff,
        command is ResetToFirmware <==> command_bytes(command)[2] == 0xf0,
        command is ResetToFirmware ==> command_bytes(command)[3] == 1,
{
}

/// The broadcast of a blink differs by its delay alone, in the last two of its six bytes, the
/// lower one first.
pub proof fn law_blink_packet(delay_ms: u16)
    ensures
        blink_bytes(delay_ms).len() == 6,
        blink_bytes(delay_ms).take(4) == seq![0xf3u8, 0x80u8, 0x01u8, 0x00u8],
        blink_bytes(delay_ms)[4] == delay_ms % 256,
        blink_bytes(delay_ms)[5] == delay_ms / 256,
{
    assert(blink_bytes(delay_ms).take(4) =~= seq![0xf3u8, 0x80u8, 0x01u8, 0x00u8]);
}

/// A channel on which nothing was measured yet has no answers.
pub proof fn law_no_answers()
    ensures
        no_tally().acks == 0,
        no_tally().rssi_sum == 0,
        no_tally().rssi_count == 0,
{
}

} // verus!
