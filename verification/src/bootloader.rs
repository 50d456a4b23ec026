//! Flashing firmware over the air: what a target name stands for, the way into the bootloader,
//! and the decisions on the way through a deck's memory or the deck controller.

use crate::radio;
use crate::text;
use vstd::prelude::*;
use vstd::string::*;

verus! {

// ---------------------------------------------------------------------------
// Targets
// ---------------------------------------------------------------------------

/// The names of the targets, in the order they are offered.
pub open spec fn target_names() -> Seq<Seq<char>> {
    seq![
        "stm32-fw"@,
        "nrf51-fw"@,
        "bcAI:esp-fw"@,
        "bcCam:qcc"@,
        "bcLighthouse4-fw"@,
        "bcColorLedTop:col-fw"@,
        "bcColorLedBot:col-fw"@,
        "deckctrl-fw"@,
        "deckctrl-cfg"@,
    ]
}

/// The targets that can be flashed.
pub fn target_list() -> (list: [&'static str; 9])
    ensures
        forall|i: int| 0 <= i < 9 ==> (#[trigger] list@[i])@ == target_names()[i],
{
    [
        "stm32-fw",
        "nrf51-fw",
        "bcAI:esp-fw",
        "bcCam:qcc",
        "bcLighthouse4-fw",
        "bcColorLedTop:col-fw",
        "bcColorLedBot:col-fw",
        "deckctrl-fw",
        "deckctrl-cfg",
    ]
}

/// How a target is flashed.
#[derive(Debug, Clone)]
pub enum TargetKind {
    /// The main processor, over the radio bootloader.
    Stm32,
    /// The radio chip, over the radio bootloader.
    Nrf51,
    /// The deck controller, over its DFU memory: its configuration or its firmware.
    DeckCtrl { is_cfg: bool },
    /// A section of a deck's memory.
    Deck { section: String },
}

/// Whether `kind` is how the target called `target` is flashed.
pub open spec fn is_kind_of(kind: TargetKind, target: Seq<char>) -> bool {
    if target == "stm32-fw"@ {
        kind is Stm32
    } else if target == "nrf51-fw"@ {
        kind is Nrf51
    } else if target == "deckctrl-fw"@ {
        kind == TargetKind::DeckCtrl { is_cfg: false }
    } else if target == "deckctrl-cfg"@ {
        kind == TargetKind::DeckCtrl { is_cfg: true }
    } else {
        kind matches TargetKind::Deck { section } && section@ == target
    }
}

/// How the target called `target` is flashed: any other name is a section of a deck.
pub fn classify(target: &str) -> (kind: TargetKind)
    ensures
        is_kind_of(kind, target@),
{
    if text::same_text(target, "stm32-fw") {
        TargetKind::Stm32
    } else if text::same_text(target, "nrf51-fw") {
        TargetKind::Nrf51
    } else if text::same_text(target, "deckctrl-fw") {
        TargetKind::DeckCtrl { is_cfg: false }
    } else if text::same_text(target, "deckctrl-cfg") {
        TargetKind::DeckCtrl { is_cfg: true }
    } else {
        TargetKind::Deck { section: target.to_string() }
    }
}

/// The targets on offer between the processors and the deck controller are deck sections.
pub proof fn law_offered_targets(i: int, kind: TargetKind)
    requires
        0 <= i < 9,
        is_kind_of(kind, target_names()[i]),
    ensures
        i == 0 <==> kind is Stm32,
        i == 1 <==> kind is Nrf51,
        2 <= i < 7 <==> kind is Deck,
        i == 7 <==> kind == (TargetKind::DeckCtrl { is_cfg: false }),
        i == 8 <==> kind == (TargetKind::DeckCtrl { is_cfg: true }),
{
    reveal_strlit("stm32-fw");
    reveal_strlit("nrf51-fw");
    reveal_strlit("bcAI:esp-fw");
    reveal_strlit("bcCam:qcc");
    reveal_strlit("bcLighthouse4-fw");
    reveal_strlit("bcColorLedTop:col-fw");
    reveal_strlit("bcColorLedBot:col-fw");
    reveal_strlit("deckctrl-fw");
    reveal_strlit("deckctrl-cfg");
    let t = target_names()[i];
    assert("stm32-fw"@[0] != "nrf51-fw"@[0]);
    assert("deckctrl-fw"@.len() != "deckctrl-cfg"@.len());
    assert("stm32-fw"@[0] == 's' && "nrf51-fw"@[0] == 'n' && "deckctrl-fw"@[0] == 'd'
        && "deckctrl-cfg"@[0] == 'd');
    assert(2 <= i < 7 ==> t[0] == 'b');
}

// ---------------------------------------------------------------------------
// Into the radio bootloader
// ---------------------------------------------------------------------------

/// The packet that switches safelink off, so that the radio chip takes raw commands.
pub open spec fn safelink_off_bytes() -> Seq<u8> {
    seq![0xFFu8, 0xFEu8, 0xFFu8, 0x05u8, 0x00u8]
}

/// The packet that asks for the address of the bootloader.
pub open spec fn reset_request_bytes() -> Seq<u8> {
    seq![0xFFu8, 0xFEu8, 0xFFu8]
}

/// The packet that resets into the bootloader.
pub open spec fn to_bootloader_bytes() -> Seq<u8> {
    seq![0xFFu8, 0xFEu8, 0xF0u8, 0x00u8]
}

/// The reply that carries the address of the bootloader.
pub open spec fn is_address_reply(data: Seq<u8>) -> bool {
    data.len() > 2 && data[0] == 0xFE && data[1] == 0xFF
}

/// The radio address of the bootloader: `b1` and four bytes of the reply, last first.
pub open spec fn bootloader_address(data: Seq<u8>) -> Seq<u8> {
    seq![0xb1u8, data[5], data[4], data[3], data[2]]
}

/// The address of the bootloader, if the packet is the reply that carries it.
pub fn address_from_reply(data: &[u8]) -> (address: Option<[u8; 5]>)
    requires
        is_address_reply(data@) ==> data@.len() >= 6,
    ensures
        address is Some <==> is_address_reply(data@),
        address matches Some(a) ==> a@ == bootloader_address(data@),
{
    if data.len() > 2 && data[0] == 0xFE && data[1] == 0xFF {
        let address: [u8; 5] = [0xb1, data[5], data[4], data[3], data[2]];
        assert(address@ =~= bootloader_address(data@));
        Some(address)
    } else {
        None
    }
}

/// Where the reset into the bootloader stands.
#[derive(Debug, Clone, Copy)]
pub enum ResetPhase {
    SafelinkOff,
    Requesting,
    /// Waiting for the reply, at most 100 ms for each packet.
    Awaiting,
    /// This many packets of ten went out; the address is known.
    Resetting(usize, [u8; 5]),
    /// Half a second for the bootloader to come up.
    Settling([u8; 5]),
    Done([u8; 5]),
    /// No reply in time.
    TimedOut,
}

/// What the reset does next.
#[derive(Debug, Clone)]
pub enum ResetAction {
    Send(Vec<u8>),
    /// Receive one packet, within this many milliseconds.
    Receive(u64),
    /// Wait this many milliseconds.
    Sleep(u64),
    Done([u8; 5]),
    Fail(String),
}

/// `action` belongs to `phase`.
pub open spec fn is_reset_action(phase: ResetPhase, action: ResetAction) -> bool {
    match phase {
        ResetPhase::SafelinkOff => action matches ResetAction::Send(p) && p@
            == safelink_off_bytes(),
        ResetPhase::Requesting => action matches ResetAction::Send(p) && p@
            == reset_request_bytes(),
        ResetPhase::Awaiting => action == ResetAction::Receive(100),
        ResetPhase::Resetting(_, _) => action matches ResetAction::Send(p) && p@
            == to_bootloader_bytes(),
        ResetPhase::Settling(_) => action == ResetAction::Sleep(500),
        ResetPhase::Done(a) => action == ResetAction::Done(a),
        ResetPhase::TimedOut => action matches ResetAction::Fail(m) && m@
            == "Timeout waiting for bootloader address"@,
    }
}

/// The phase after `phase`, when its action was done; `reply` is the packet received, if the
/// phase waits for one.
pub open spec fn reset_follows(phase: ResetPhase, reply: Option<Seq<u8>>, next: ResetPhase) -> bool {
    match phase {
        ResetPhase::SafelinkOff => next is Requesting,
        ResetPhase::Requesting => next is Awaiting,
        ResetPhase::Awaiting => match reply {
            None => next is TimedOut,
            Some(data) => if is_address_reply(data) {
                next matches ResetPhase::Resetting(n, a) && n == 0 && a@ == bootloader_address(
                    data,
                )
            } else {
                next is Awaiting
            },
        },
        ResetPhase::Resetting(n, a) => if n + 1 < 10 {
            next == ResetPhase::Resetting((n + 1) as usize, a)
        } else {
            next == ResetPhase::Settling(a)
        },
        ResetPhase::Settling(a) => next == ResetPhase::Done(a),
        ResetPhase::Done(_) => next == phase,
        ResetPhase::TimedOut => next == phase,
    }
}

fn bytes3(a: u8, b: u8, c: u8) -> (v: Vec<u8>)
    ensures
        v@ == seq![a, b, c],
{
    let mut v: Vec<u8> = Vec::new();
    v.push(a);
    v.push(b);
    v.push(c);
    assert(v@ =~= seq![a, b, c]);
    v
}

/// What the reset into the bootloader does in this phase.
pub fn reset_action(phase: &ResetPhase) -> (action: ResetAction)
    ensures
        is_reset_action(*phase, action),
{
    match *phase {
        ResetPhase::SafelinkOff => {
            let mut p = bytes3(0xFF, 0xFE, 0xFF);
            p.push(0x05);
            p.push(0x00);
            assert(p@ =~= safelink_off_bytes());
            ResetAction::Send(p)
        },
        ResetPhase::Requesting => ResetAction::Send(bytes3(0xFF, 0xFE, 0xFF)),
        ResetPhase::Awaiting => ResetAction::Receive(100),
        ResetPhase::Resetting(_, _) => {
            let mut p = bytes3(0xFF, 0xFE, 0xF0);
            p.push(0x00);
            assert(p@ =~= to_bootloader_bytes());
            ResetAction::Send(p)
        },
        ResetPhase::Settling(_) => ResetAction::Sleep(500),
        ResetPhase::Done(a) => ResetAction::Done(a),
        ResetPhase::TimedOut => ResetAction::Fail(
            "Timeout waiting for bootloader address".to_string(),
        ),
    }
}

/// Resets the radio chip into its bootloader, step by step: the phase that follows once the
/// action of `phase` was done. `reply` is the packet received while waiting for one, or none
/// when the time was up.
pub fn reset_and_get_bootloader_address(phase: ResetPhase, reply: Option<&[u8]>) -> (next:
    ResetPhase)
    requires
        phase is Awaiting ==> (reply matches Some(data) ==> (is_address_reply(data@)
            ==> data@.len() >= 6)),
        phase matches ResetPhase::Resetting(n, _) ==> n < 10,
    ensures
        reset_follows(
            phase,
            match reply {
                Some(data) => Some(data@),
                None => None,
            },
            next,
        ),
{
    match phase {
        ResetPhase::SafelinkOff => ResetPhase::Requesting,
        ResetPhase::Requesting => ResetPhase::Awaiting,
        ResetPhase::Awaiting => match reply {
            None => ResetPhase::TimedOut,
            Some(data) => match address_from_reply(data) {
                Some(address) => ResetPhase::Resetting(0, address),
                None => ResetPhase::Awaiting,
            },
        },
        ResetPhase::Resetting(n, address) => if n + 1 < 10 {
            ResetPhase::Resetting(n + 1, address)
        } else {
            ResetPhase::Settling(address)
        },
        ResetPhase::Settling(address) => ResetPhase::Done(address),
        ResetPhase::Done(address) => ResetPhase::Done(address),
        ResetPhase::TimedOut => ResetPhase::TimedOut,
    }
}

/// Where the image starts in flash: at a page of the processor.
pub fn start_address(flash_start: u16, page_size: u16) -> (address: u32)
    ensures
        address == flash_start * page_size,
{
    assert(flash_start * page_size <= 65535 * 65535) by (nonlinear_arith)
        requires
            flash_start <= 65535,
            page_size <= 65535,
    ;
    flash_start as u32 * page_size as u32
}

// ---------------------------------------------------------------------------
// Deck memory
// ---------------------------------------------------------------------------

/// How opening a memory went.
pub enum OpenOutcome {
    Opened,
    Failed(String),
    Missing,
}

/// Whether a deck memory can be flashed, by the number of deck memories found.
pub fn check_deck_memories(count: usize) -> (r: Result<(), String>)
    ensures
        r is Ok <==> count > 0,
        r matches Err(m) ==> m@ == "No deck memory found (is a deck attached?)"@,
{
    if count == 0 {
        Err("No deck memory found (is a deck attached?)".to_string())
    } else {
        Ok(())
    }
}

/// Whether the deck memory was opened.
pub fn check_deck_opened(outcome: &OpenOutcome) -> (r: Result<(), String>)
    ensures
        r is Ok <==> outcome is Opened,
        r matches Err(m) ==> (match *outcome {
            OpenOutcome::Failed(e) => m@ == "Could not open deck memory: "@ + e@,
            _ => m@ == "Deck memory not found"@,
        }),
{
    match outcome {
        OpenOutcome::Opened => Ok(()),
        OpenOutcome::Failed(e) => Err(text::concat2("Could not open deck memory: ", e.as_str())),
        OpenOutcome::Missing => Err("Deck memory not found".to_string()),
    }
}

/// The position of the first section with this name.
pub fn find_section(sections: &Vec<String>, name: &str) -> (r: Result<usize, String>)
    ensures
        match r {
            Ok(p) => {
                &&& p < sections@.len()
                &&& sections@[p as int]@ == name@
                &&& forall|k: int| 0 <= k < p ==> (#[trigger] sections@[k])@ != name@
            },
            Err(m) => {
                &&& forall|k: int|
                    0 <= k < sections@.len() ==> (#[trigger] sections@[k])@ != name@
                &&& m@ == "Deck section '"@ + name@ + "' not found (deck not attached?)"@
            },
        },
{
    let mut i: usize = 0;
    while i < sections.len()
        invariant
            i <= sections@.len(),
            forall|k: int| 0 <= k < i ==> (#[trigger] sections@[k])@ != name@,
        decreases sections.len() - i,
    {
        if text::same_text(sections[i].as_str(), name) {
            return Ok(i);
        }
        i = i + 1;
    }
    Err(text::concat3("Deck section '", name, "' not found (deck not attached?)"))
}

/// How often the bootloader of a deck is asked whether it is active.
pub const BOOTLOADER_POLLS: usize = 50;

/// Where the way into the bootloader of a deck section stands.
#[derive(Debug, Clone, Copy, PartialEq, Eq, Structural)]
pub enum SectionPhase {
    /// Ask whether the bootloader is active.
    Asking,
    /// Reset into the bootloader.
    Resetting,
    /// Wait 100 ms and ask; this many times was asked so far.
    Polling(usize),
    /// Write the image.
    Writing,
    /// The bootloader did not come up.
    Refused,
}

/// The phase after the action of `phase`; `active` is the answer where one was asked for.
pub open spec fn section_next(phase: SectionPhase, active: bool) -> SectionPhase {
    match phase {
        SectionPhase::Asking => if active {
            SectionPhase::Writing
        } else {
            SectionPhase::Resetting
        },
        SectionPhase::Resetting => SectionPhase::Polling(0),
        SectionPhase::Polling(n) => if active {
            SectionPhase::Writing
        } else if n + 1 < 50 {
            SectionPhase::Polling((n + 1) as usize)
        } else {
            SectionPhase::Refused
        },
        SectionPhase::Writing => SectionPhase::Writing,
        SectionPhase::Refused => SectionPhase::Refused,
    }
}

/// Brings a deck section into its bootloader, step by step.
pub fn flash_deck_section_inner(phase: SectionPhase, active: bool) -> (next: SectionPhase)
    requires
        phase matches SectionPhase::Polling(n) ==> n < 50,
    ensures
        next == section_next(phase, active),
        next matches SectionPhase::Polling(n) ==> n < 50,
{
    match phase {
        SectionPhase::Asking => if active {
            SectionPhase::Writing
        } else {
            SectionPhase::Resetting
        },
        SectionPhase::Resetting => SectionPhase::Polling(0),
        SectionPhase::Polling(n) => if active {
            SectionPhase::Writing
        } else if n + 1 < BOOTLOADER_POLLS {
            SectionPhase::Polling(n + 1)
        } else {
            SectionPhase::Refused
        },
        SectionPhase::Writing => SectionPhase::Writing,
        SectionPhase::Refused => SectionPhase::Refused,
    }
}

/// The phase after `n` answers that the bootloader is not active.
pub open spec fn after_refusals(n: nat) -> SectionPhase
    decreases n,
{
    if n == 0 {
        SectionPhase::Polling(0)
    } else {
        section_next(after_refusals((n - 1) as nat), false)
    }
}

/// A deck that never comes up is asked exactly fifty times, and one that comes up on any of them
/// is flashed.
pub proof fn law_polls(n: nat)
    ensures
        n < 50 ==> after_refusals(n) == SectionPhase::Polling(n as usize) && section_next(
            after_refusals(n),
            true,
        ) == SectionPhase::Writing,
        n >= 50 ==> after_refusals(n) == SectionPhase::Refused,
    decreases n,
{
    if n > 0 {
        law_polls((n - 1) as nat);
    }
}

/// The message when the bootloader of a section did not come up.
pub fn section_refused_text(name: &str) -> (s: String)
    ensures
        s@ == "Failed to activate bootloader for deck section '"@ + name@ + "'"@,
{
    text::concat3("Failed to activate bootloader for deck section '", name, "'")
}

// ---------------------------------------------------------------------------
// The deck controller
// ---------------------------------------------------------------------------

/// Where the firmware of the deck controller starts in its DFU memory.
pub const DECK_CTRL_DFU_FLASH_OFFSET: usize = 0x10000;

/// Where its configuration starts.
pub const DECK_CTRL_DFU_CFG_DEFAULT_OFFSET: usize = 0x17800;

/// Where commands are written.
pub const DECK_CTRL_DFU_CMD_OFFSET: usize = 0x03;

pub const DECK_CTRL_DFU_CMD_ENTER_DFU: u8 = 0x01;

pub const DECK_CTRL_DFU_CMD_ENTER_FIRMWARE: u8 = 0x02;

/// How long the deck controller takes to come back after a reset.
pub const DECK_CTRL_DFU_RESET_DELAY_MS: u64 = 3000;

/// The head of the DFU memory.
#[derive(Debug, Clone, Copy, PartialEq, Eq, Structural)]
pub struct DeckCtrlDfuHeader {
    pub version: u8,
    pub deck_ctrl_count: u8,
    pub status: u8,
}

/// The lowest bit of the status: the deck controller is in DFU mode.
pub open spec fn in_dfu_mode(h: DeckCtrlDfuHeader) -> bool {
    h.status % 2 == 1
}

/// The second bit of the status: DFU mode can be entered.
pub open spec fn can_enable_dfu(h: DeckCtrlDfuHeader) -> bool {
    (h.status / 2) % 2 == 1
}

/// Reads the head of the DFU memory.
pub fn read_deck_ctrl_dfu_header(bytes: &[u8]) -> (h: DeckCtrlDfuHeader)
    requires
        bytes@.len() >= 3,
    ensures
        h == (DeckCtrlDfuHeader {
            version: bytes@[0],
            deck_ctrl_count: bytes@[1],
            status: bytes@[2],
        }),
{
    DeckCtrlDfuHeader { version: bytes[0], deck_ctrl_count: bytes[1], status: bytes[2] }
}

/// Where the flashing of a deck controller stands. It connects twice: entering DFU mode
/// power-cycles the unit, and its memories may then be listed anew.
pub enum DfuPhase {
    Connecting { second: bool },
    /// Counting the DFU memories.
    Looking { second: bool },
    Opening { second: bool },
    /// Reading the first four bytes.
    Reading { second: bool },
    /// Writing the command to enter DFU mode.
    Entering,
    /// Disconnecting after the first visit; a reset follows if DFU mode was entered.
    Leaving { reset: bool },
    /// Waiting for the deck controller to come back.
    Restarting,
    /// Writing the image.
    Writing,
    /// Writing the command to run the firmware; how the image went is kept.
    Exiting(Result<(), String>),
    Disconnecting(Result<(), String>),
    Settling(Result<(), String>),
    /// Disconnecting because flashing was refused.
    Refusing(String),
    Finished(Result<(), String>),
}

/// What happened to the action of a phase.
pub enum DfuEvent {
    /// It was done.
    Done,
    /// It failed, for this reason.
    Failed(String),
    /// This many memories were found.
    Found(usize),
    /// How opening the memory went.
    Open(OpenOutcome),
    /// The bytes that were read.
    Bytes(Vec<u8>),
}

/// An outcome is the failure with the given message.
pub open spec fn failed_with(r: Result<(), String>, message: Seq<char>) -> bool {
    r matches Err(m) && m@ == message
}

/// The phase is the end, with the given message.
pub open spec fn finished_with(phase: DfuPhase, message: Seq<char>) -> bool {
    phase matches DfuPhase::Finished(r) && failed_with(r, message)
}

/// The phase disconnects and ends with the given message.
pub open spec fn refusing_with(phase: DfuPhase, message: Seq<char>) -> bool {
    phase matches DfuPhase::Refusing(m) && m@ == message
}

/// What follows the head of the memory on the first visit.
pub open spec fn first_visit(h: DeckCtrlDfuHeader, next: DfuPhase) -> bool {
    if h.version != 1 {
        refusing_with(next, "Unsupported DeckCtrlDFU version: "@ + text::decimal(h.version as nat))
    } else if in_dfu_mode(h) {
        next == (DfuPhase::Leaving { reset: false })
    } else if h.deck_ctrl_count > 1 {
        refusing_with(
            next,
            "Cannot enter DFU: expected at most one DeckCtrl deck attached, found "@ + text::decimal(
                h.deck_ctrl_count as nat,
            ),
        )
    } else if !can_enable_dfu(h) {
        refusing_with(next, "Cannot enter DFU: STATUS_CAN_ENABLE_DFU is not set"@)
    } else {
        next is Entering
    }
}

/// What follows the head of the memory on the second visit.
pub open spec fn second_visit(h: DeckCtrlDfuHeader, next: DfuPhase) -> bool {
    if in_dfu_mode(h) {
        next is Writing
    } else {
        refusing_with(next, "DeckCtrl did not enter DFU mode"@)
    }
}

/// The first three bytes of a read as the head of the memory.
pub open spec fn header_of(bytes: Seq<u8>) -> DeckCtrlDfuHeader {
    DeckCtrlDfuHeader { version: bytes[0], deck_ctrl_count: bytes[1], status: bytes[2] }
}

/// The event is one that the action of the phase can have.
pub open spec fn fits(phase: DfuPhase, event: DfuEvent) -> bool {
    match phase {
        DfuPhase::Connecting { .. } => event is Done || event is Failed,
        DfuPhase::Looking { .. } => event is Found,
        DfuPhase::Opening { .. } => event is Open,
        DfuPhase::Reading { .. } => event is Failed || (event matches DfuEvent::Bytes(b)
            && b@.len() >= 3),
        DfuPhase::Entering => event is Done || event is Failed,
        DfuPhase::Writing => event is Done || event is Failed,
        DfuPhase::Exiting(_) => event is Done || event is Failed,
        DfuPhase::Finished(_) => true,
        _ => event is Done,
    }
}

/// `next` is the phase after `event` in `phase`.
pub open spec fn dfu_follows(phase: DfuPhase, event: DfuEvent, next: DfuPhase) -> bool {
    match phase {
        DfuPhase::Connecting { second } => match event {
            DfuEvent::Failed(e) => finished_with(next, e@),
            _ => next == (DfuPhase::Looking { second }),
        },
        DfuPhase::Looking { second } => event matches DfuEvent::Found(n) && (if n == 0 {
            finished_with(next, "DeckCtrlDFU memory not present, cannot flash DeckCtrl"@)
        } else if n > 1 {
            finished_with(
                next,
                "Multiple DeckCtrlDFU memories found ("@ + text::decimal(n as nat)
                    + "), cannot flash DeckCtrl"@,
            )
        } else {
            next == (DfuPhase::Opening { second })
        }),
        DfuPhase::Opening { second } => event matches DfuEvent::Open(o) && (match o {
            OpenOutcome::Opened => next == (DfuPhase::Reading { second }),
            OpenOutcome::Failed(e) => finished_with(
                next,
                "Could not access DeckCtrlDFU memory: "@ + e@,
            ),
            OpenOutcome::Missing => finished_with(next, "DeckCtrlDFU memory not found"@),
        }),
        DfuPhase::Reading { second } => match event {
            DfuEvent::Bytes(b) => if second {
                second_visit(header_of(b@), next)
            } else {
                first_visit(header_of(b@), next)
            },
            DfuEvent::Failed(e) => finished_with(next, e@),
            _ => true,
        },
        DfuPhase::Entering => match event {
            DfuEvent::Failed(e) => finished_with(next, e@),
            _ => next == (DfuPhase::Leaving { reset: true }),
        },
        DfuPhase::Leaving { reset } => if reset {
            next is Restarting
        } else {
            next == (DfuPhase::Connecting { second: true })
        },
        DfuPhase::Restarting => next == (DfuPhase::Connecting { second: true }),
        DfuPhase::Writing => next matches DfuPhase::Exiting(r) && (match event {
            DfuEvent::Failed(e) => failed_with(r, e@),
            _ => r is Ok,
        }),
        DfuPhase::Exiting(r) => next == DfuPhase::Disconnecting(r),
        DfuPhase::Disconnecting(r) => next == DfuPhase::Settling(r),
        DfuPhase::Settling(r) => next == DfuPhase::Finished(r),
        DfuPhase::Refusing(m) => finished_with(next, m@),
        DfuPhase::Finished(_) => next == phase,
    }
}

/// What the deck controller's flashing does in a phase.
pub enum DfuAction {
    Connect,
    CountMemories,
    OpenMemory,
    /// Read this many bytes from this offset.
    Read(usize, usize),
    /// Write one byte at this offset.
    WriteByte(usize, u8),
    /// Write the image at this offset.
    WriteImage(usize),
    Disconnect,
    /// Wait this many milliseconds.
    Sleep(u64),
    Finish(Result<(), String>),
}

/// `action` belongs to `phase` when the configuration (`is_cfg`) or the firmware is flashed.
pub open spec fn is_dfu_action(phase: DfuPhase, is_cfg: bool, action: DfuAction) -> bool {
    match phase {
        DfuPhase::Connecting { .. } => action is Connect,
        DfuPhase::Looking { .. } => action is CountMemories,
        DfuPhase::Opening { .. } => action is OpenMemory,
        DfuPhase::Reading { .. } => action == DfuAction::Read(0, 4),
        DfuPhase::Entering => action == DfuAction::WriteByte(0x03, 0x01),
        DfuPhase::Writing => action == DfuAction::WriteImage(
            if is_cfg {
                0x17800
            } else {
                0x10000
            },
        ),
        DfuPhase::Exiting(_) => action == DfuAction::WriteByte(0x03, 0x02),
        DfuPhase::Leaving { .. } => action is Disconnect,
        DfuPhase::Disconnecting(_) => action is Disconnect,
        DfuPhase::Refusing(_) => action is Disconnect,
        DfuPhase::Restarting => action == DfuAction::Sleep(3000),
        DfuPhase::Settling(_) => action == DfuAction::Sleep(3000),
        DfuPhase::Finished(r) => action matches DfuAction::Finish(s) && (match r {
            Ok(_) => s is Ok,
            Err(m) => failed_with(s, m@),
        }),
    }
}

/// What the flashing of a deck controller does in this phase.
pub fn dfu_action(phase: &DfuPhase, is_cfg: bool) -> (action: DfuAction)
    ensures
        is_dfu_action(*phase, is_cfg, action),
{
    match phase {
        DfuPhase::Connecting { .. } => DfuAction::Connect,
        DfuPhase::Looking { .. } => DfuAction::CountMemories,
        DfuPhase::Opening { .. } => DfuAction::OpenMemory,
        DfuPhase::Reading { .. } => DfuAction::Read(0, 4),
        DfuPhase::Entering => DfuAction::WriteByte(
            DECK_CTRL_DFU_CMD_OFFSET,
            DECK_CTRL_DFU_CMD_ENTER_DFU,
        ),
        DfuPhase::Writing => if is_cfg {
            DfuAction::WriteImage(DECK_CTRL_DFU_CFG_DEFAULT_OFFSET)
        } else {
            DfuAction::WriteImage(DECK_CTRL_DFU_FLASH_OFFSET)
        },
        DfuPhase::Exiting(_) => DfuAction::WriteByte(
            DECK_CTRL_DFU_CMD_OFFSET,
            DECK_CTRL_DFU_CMD_ENTER_FIRMWARE,
        ),
        DfuPhase::Leaving { .. } => DfuAction::Disconnect,
        DfuPhase::Disconnecting(_) => DfuAction::Disconnect,
        DfuPhase::Refusing(_) => DfuAction::Disconnect,
        DfuPhase::Restarting => DfuAction::Sleep(DECK_CTRL_DFU_RESET_DELAY_MS),
        DfuPhase::Settling(_) => DfuAction::Sleep(DECK_CTRL_DFU_RESET_DELAY_MS),
        DfuPhase::Finished(r) => match r {
            Ok(_) => DfuAction::Finish(Ok(())),
            Err(m) => DfuAction::Finish(Err(m.clone())),
        },
    }
}

fn finish_failed(message: String) -> (phase: DfuPhase)
    ensures
        finished_with(phase, message@),
{
    DfuPhase::Finished(Err(message))
}

fn after_first_header(h: DeckCtrlDfuHeader) -> (next: DfuPhase)
    ensures
        first_visit(h, next),
{
    if h.version != 1 {
        let mut m = "Unsupported DeckCtrlDFU version: ".to_string();
        text::push_decimal(&mut m, h.version as u64);
        return DfuPhase::Refusing(m);
    }
    if h.status % 2 == 1 {
        return DfuPhase::Leaving { reset: false };
    }
    if h.deck_ctrl_count > 1 {
        let mut m =
            "Cannot enter DFU: expected at most one DeckCtrl deck attached, found ".to_string();
        text::push_decimal(&mut m, h.deck_ctrl_count as u64);
        return DfuPhase::Refusing(m);
    }
    if (h.status / 2) % 2 == 0 {
        return DfuPhase::Refusing(
            "Cannot enter DFU: STATUS_CAN_ENABLE_DFU is not set".to_string(),
        );
    }
    DfuPhase::Entering
}

/// Flashes a deck controller, step by step: the phase that follows `event`.
pub fn flash_deck_ctrl(phase: DfuPhase, event: DfuEvent) -> (next: DfuPhase)
    requires
        fits(phase, event),
    ensures
        dfu_follows(phase, event, next),
{
    match phase {
        DfuPhase::Connecting { second } => match event {
            DfuEvent::Failed(e) => finish_failed(e),
            _ => DfuPhase::Looking { second },
        },
        DfuPhase::Looking { second } => {
            let n: usize = match event {
                DfuEvent::Found(n) => n,
                _ => 0,
            };
            if n == 0 {
                finish_failed("DeckCtrlDFU memory not present, cannot flash DeckCtrl".to_string())
            } else if n > 1 {
                let mut m = "Multiple DeckCtrlDFU memories found (".to_string();
                text::push_decimal(&mut m, n as u64);
                m.append("), cannot flash DeckCtrl");
                finish_failed(m)
            } else {
                DfuPhase::Opening { second }
            }
        },
        DfuPhase::Opening { second } => match event {
            DfuEvent::Open(OpenOutcome::Opened) => DfuPhase::Reading { second },
            DfuEvent::Open(OpenOutcome::Failed(e)) => finish_failed(
                text::concat2("Could not access DeckCtrlDFU memory: ", e.as_str()),
            ),
            _ => finish_failed("DeckCtrlDFU memory not found".to_string()),
        },
        DfuPhase::Reading { second } => match event {
            DfuEvent::Bytes(b) => {
                let h = read_deck_ctrl_dfu_header(b.as_slice());
                if !second {
                    after_first_header(h)
                } else if h.status % 2 == 1 {
                    DfuPhase::Writing
                } else {
                    DfuPhase::Refusing("DeckCtrl did not enter DFU mode".to_string())
                }
            },
            DfuEvent::Failed(e) => finish_failed(e),
            _ => DfuPhase::Reading { second },
        },
        DfuPhase::Entering => match event {
            DfuEvent::Failed(e) => finish_failed(e),
            _ => DfuPhase::Leaving { reset: true },
        },
        DfuPhase::Leaving { reset } => if reset {
            DfuPhase::Restarting
        } else {
            DfuPhase::Connecting { second: true }
        },
        DfuPhase::Restarting => DfuPhase::Connecting { second: true },
        DfuPhase::Writing => match event {
            DfuEvent::Failed(e) => DfuPhase::Exiting(Err(e)),
            _ => DfuPhase::Exiting(Ok(())),
        },
        DfuPhase::Exiting(r) => DfuPhase::Disconnecting(r),
        DfuPhase::Disconnecting(r) => DfuPhase::Settling(r),
        DfuPhase::Settling(r) => DfuPhase::Finished(r),
        DfuPhase::Refusing(m) => finish_failed(m),
        DfuPhase::Finished(r) => DfuPhase::Finished(r),
    }
}

/// Whatever became of the image, and whatever becomes of each later step, the deck controller is
/// told to run its firmware, the unit is disconnected, it gets time to come back, and then the
/// outcome of the image is reported.
pub proof fn law_dfu_is_left(
    image: DfuEvent,
    command: DfuEvent,
    a: DfuPhase,
    b: DfuPhase,
    c: DfuPhase,
    d: DfuPhase,
    is_cfg: bool,
    actions: (DfuAction, DfuAction, DfuAction, DfuAction),
)
    requires
        fits(DfuPhase::Writing, image),
        fits(a, command),
        dfu_follows(DfuPhase::Writing, image, a),
        dfu_follows(a, command, b),
        dfu_follows(b, DfuEvent::Done, c),
        dfu_follows(c, DfuEvent::Done, d),
        is_dfu_action(a, is_cfg, actions.0),
        is_dfu_action(b, is_cfg, actions.1),
        is_dfu_action(c, is_cfg, actions.2),
        is_dfu_action(d, is_cfg, actions.3),
    ensures
        actions.0 == DfuAction::WriteByte(0x03, 0x02),
        actions.1 is Disconnect,
        actions.2 == DfuAction::Sleep(3000),
        actions.3 matches DfuAction::Finish(r) && (match image {
            DfuEvent::Failed(e) => failed_with(r, e@),
            _ => r is Ok,
        }),
{
}

/// The address of the bootloader begins with `b1` and goes on with the bytes of the reply behind
/// its head, backwards. Only a reply with the head `FE FF` and more behind it counts.
pub proof fn law_bootloader_address(data: Seq<u8>, i: int)
    requires
        1 <= i < 5,
    ensures
        bootloader_address(data).len() == 5,
        bootloader_address(data)[0] == 0xb1,
        bootloader_address(data)[i] == data[6 - i],
        is_address_reply(data) ==> data.len() >= 3 && data[0] == 0xFE && data[1] == 0xFF,
        data.len() >= 3 && data[0] == 0xFE && data[1] == 0xFF ==> is_address_reply(data),
{
}

/// Once the address is known the reset is sent ten times, half a second is waited, and that
/// address is given. Other packets are passed over, and no packet in time ends the reset.
pub proof fn law_reset_runs(phases: Seq<ResetPhase>, address: [u8; 5], k: int, reply: Seq<u8>, next: ResetPhase)
    requires
        phases.len() == 12,
        phases[0] == ResetPhase::Resetting(0, address),
        forall|i: int| 0 <= i < 11 ==> reset_follows(#[trigger] phases[i], None, phases[i + 1]),
        0 <= k < 10,
    ensures
        phases[k] == ResetPhase::Resetting(k as usize, address),
        phases[10] == ResetPhase::Settling(address),
        phases[11] == ResetPhase::Done(address),
        reset_follows(ResetPhase::Awaiting, None, next) ==> next is TimedOut,
        reset_follows(ResetPhase::Awaiting, Some(reply), next) && !(reply.len() > 2 && reply[0]
            == 0xFE && reply[1] == 0xFF) ==> next is Awaiting,
        reset_follows(ResetPhase::Awaiting, Some(reply), next) && reply.len() > 2 && reply[0] == 0xFE
            && reply[1] == 0xFF ==> (next matches ResetPhase::Resetting(n, a) && n == 0 && a@
            == bootloader_address(reply)),
{
    lemma_resets(phases, address, 9);
    lemma_resets(phases, address, k);
    let last: int = 9;
    assert(reset_follows(phases[last], None, phases[last + 1]));
    assert(reset_follows(phases[last + 1], None, phases[last + 1 + 1]));
}

proof fn lemma_resets(phases: Seq<ResetPhase>, address: [u8; 5], k: int)
    requires
        phases.len() == 12,
        phases[0] == ResetPhase::Resetting(0, address),
        forall|i: int| 0 <= i < 11 ==> reset_follows(#[trigger] phases[i], None, phases[i + 1]),
        0 <= k < 10,
    ensures
        phases[k] == ResetPhase::Resetting(k as usize, address),
    decreases k,
{
    if k > 0 {
        lemma_resets(phases, address, k - 1);
        assert(reset_follows(phases[k - 1], None, phases[k - 1 + 1]));
    }
}

/// What each phase of the reset does: the packets go to the radio chip, a reply is awaited for
/// 100 ms at a time and the bootloader gets half a second.
pub proof fn law_reset_actions(phase: ResetPhase, action: ResetAction)
    requires
        is_reset_action(phase, action),
    ensures
        action matches ResetAction::Send(p) ==> p@.len() >= 3 && p@[0] == 0xFF && p@[1] == 0xFE,
        phase is Requesting ==> (action matches ResetAction::Send(p) && p@
            == radio::command_bytes(radio::PowerCommand::ResetInit)),
        phase is Resetting ==> (action matches ResetAction::Send(p) && p@.len() == 4 && p@[3] == 0
            && p@.take(3) == radio::command_bytes(radio::PowerCommand::ResetToFirmware).take(3)),
        phase is SafelinkOff ==> (action matches ResetAction::Send(p) && p@.len() == 5 && p@.take(3)
            == radio::command_bytes(radio::PowerCommand::ResetInit) && p@[3] == 5 && p@[4] == 0),
        phase is Awaiting <==> action is Receive,
        action matches ResetAction::Receive(ms) ==> ms == 100,
        phase is Settling <==> action is Sleep,
        action matches ResetAction::Sleep(ms) ==> ms == 500,
        phase matches ResetPhase::Done(a) ==> action == ResetAction::Done(a),
        phase is TimedOut <==> action is Fail,
{
    if phase is Resetting {
        assert(to_bootloader_bytes().take(3) =~= radio::command_bytes(
            radio::PowerCommand::ResetToFirmware,
        ).take(3));
    }
    if phase is SafelinkOff {
        assert(safelink_off_bytes().take(3) =~= radio::command_bytes(radio::PowerCommand::ResetInit));
    }
}

/// A deck whose bootloader runs already is flashed at once; otherwise it is reset and then asked
/// until it answers. It is flashed only once its bootloader said that it is active.
pub proof fn law_section_asks_first(phase: SectionPhase, active: bool)
    ensures
        section_next(SectionPhase::Asking, true) is Writing,
        section_next(SectionPhase::Asking, false) is Resetting,
        section_next(SectionPhase::Resetting, active) == SectionPhase::Polling(0),
        section_next(phase, active) is Writing ==> phase is Writing || (active && (phase is Asking
            || phase is Polling)),
        section_next(SectionPhase::Refused, active) is Refused,
{
}

/// On the first visit DFU mode is entered if and only if the memory is of version one, the deck
/// controller is not in that mode yet, at most one deck is attached and the mode can be entered;
/// one that is in that mode already is left without a reset. On the second visit the image is
/// written if and only if the deck controller is in DFU mode. Everything else is refused.
pub proof fn law_dfu_entered(b: Vec<u8>, first: DfuPhase, second: DfuPhase)
    requires
        b@.len() >= 3,
        dfu_follows(DfuPhase::Reading { second: false }, DfuEvent::Bytes(b), first),
        dfu_follows(DfuPhase::Reading { second: true }, DfuEvent::Bytes(b), second),
    ensures
        first is Entering <==> b@[0] == 1 && b@[2] % 2 == 0 && b@[1] <= 1 && b@[2] / 2 % 2 == 1,
        first == (DfuPhase::Leaving { reset: false }) <==> b@[0] == 1 && b@[2] % 2 == 1,
        first is Refusing <==> b@[0] != 1 || (b@[2] % 2 == 0 && (b@[1] > 1 || b@[2] / 2 % 2 == 0)),
        second is Writing <==> b@[2] % 2 == 1,
        second is Refusing <==> b@[2] % 2 == 0,
{
}

/// A deck controller is flashed if and only if there is exactly one memory for it and that can be
/// opened; entering its mode is followed by a restart and a second visit. A failure before the
/// image is written ends the flashing with its reason.
pub proof fn law_dfu_visits(n: usize, second: bool, reset: bool, e: String, next: DfuPhase)
    ensures
        dfu_follows(DfuPhase::Looking { second }, DfuEvent::Found(n), next) ==> {
            &&& next == (DfuPhase::Opening { second }) <==> n == 1
            &&& next is Finished <==> n != 1
        },
        dfu_follows(DfuPhase::Opening { second }, DfuEvent::Open(OpenOutcome::Opened), next)
            ==> next == (DfuPhase::Reading { second }),
        dfu_follows(DfuPhase::Opening { second }, DfuEvent::Open(OpenOutcome::Missing), next)
            ==> next is Finished,
        dfu_follows(DfuPhase::Connecting { second }, DfuEvent::Done, next) ==> next
            == (DfuPhase::Looking { second }),
        dfu_follows(DfuPhase::Entering, DfuEvent::Done, next) ==> next == (DfuPhase::Leaving {
            reset: true,
        }),
        dfu_follows(DfuPhase::Leaving { reset }, DfuEvent::Done, next) ==> if reset {
            next is Restarting
        } else {
            next == (DfuPhase::Connecting { second: true })
        },
        dfu_follows(DfuPhase::Restarting, DfuEvent::Done, next) ==> next == (DfuPhase::Connecting {
            second: true,
        }),
        dfu_follows(DfuPhase::Connecting { second }, DfuEvent::Failed(e), next) || dfu_follows(
            DfuPhase::Reading { second },
            DfuEvent::Failed(e),
            next,
        ) || dfu_follows(DfuPhase::Entering, DfuEvent::Failed(e), next) || dfu_follows(
            DfuPhase::Refusing(e),
            DfuEvent::Done,
            next,
        ) ==> (next matches DfuPhase::Finished(r) && r is Err && r->Err_0@ == e@),
{
}

/// What each phase does to the memory: commands are single bytes at offset three, one to enter
/// DFU mode and two to run the firmware, the configuration is written `7800` above the firmware,
/// and every restart gets three seconds.
pub proof fn law_dfu_actions(phase: DfuPhase, is_cfg: bool, action: DfuAction)
    requires
        is_dfu_action(phase, is_cfg, action),
    ensures
        action matches DfuAction::WriteByte(at, byte) ==> at == 3 && (phase is Entering && byte == 1
            || phase is Exiting && byte == 2),
        phase is Entering || phase is Exiting ==> action is WriteByte,
        phase is Writing <==> action is WriteImage,
        action matches DfuAction::WriteImage(at) ==> at == 0x10000 + (if is_cfg {
            0x7800int
        } else {
            0
        }),
        phase is Restarting || phase is Settling ==> action == DfuAction::Sleep(3000),
        phase is Leaving || phase is Disconnecting || phase is Refusing <==> action is Disconnect,
        phase is Connecting <==> action is Connect,
        phase is Looking <==> action is CountMemories,
        phase is Opening <==> action is OpenMemory,
        phase is Reading ==> action == DfuAction::Read(0, 4),
        phase is Finished <==> action is Finish,
{
}

} // verus!
