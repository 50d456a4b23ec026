//! Radio addresses, broadcasts, the channel test and flashing.

use swarmkeeper::bootloader::{
    address_from_reply, check_deck_memories, check_deck_opened, classify, dfu_action, find_section, flash_deck_ctrl,
    flash_deck_section_inner, read_deck_ctrl_dfu_header, reset_action, reset_and_get_bootloader_address,
    section_refused_text, start_address, target_list, DfuAction, DfuEvent, DfuPhase, OpenOutcome, ResetAction,
    ResetPhase, SectionPhase, TargetKind,
};
use swarmkeeper::radio::{
    blink_delays, blink_packet, broadcast_address, broadcast_channels, channel_status, delayed_blink_packet,
    disconnects, power_commands, run_radio_channel_test, send_bootloader_command, Ack, ChannelTest, PowerAction,
    PowerCommand, TestRefusal, NUM_CHANNELS, PACKETS_PER_CHANNEL, TEST_PACKETS,
};
use swarmkeeper::uri::{
    can_be_cut,
    is_radio_channel, parse_radio_uri, radio_channels, uri_with_default_timeout, uri_without_safelink,
};

#[test]
fn addresses_are_cut_between_characters() {
    assert!(can_be_cut("radio://0/80/2M/E7E7E7E7E7"));
    assert!(!can_be_cut("radio://0/80/2M/\u{e9}"));
    assert!(!can_be_cut("radio://0/80/2M/z\u{20ac}"));
    assert!(can_be_cut("radio://0/80/2M/zz\u{20ac}"));
    assert!(can_be_cut("radio://0/800/2M/\u{e9}"));
    assert!(can_be_cut("usb://\u{e9}"));
}

#[test]
fn a_timeout_is_added_where_there_is_none() {
    assert_eq!(uri_with_default_timeout("radio://0/80/2M/E7"), "radio://0/80/2M/E7?timeout=2000");
    assert_eq!(uri_with_default_timeout("radio://0?safelink=0"), "radio://0?safelink=0&timeout=2000");
    assert_eq!(uri_with_default_timeout("radio://0?a=1&timeout=5"), "radio://0?a=1&timeout=5");
    assert_eq!(uri_with_default_timeout("radio://0?xtimeout=5"), "radio://0?xtimeout=5&timeout=2000");
    for uri in ["radio://1/5/250K/ab?safelink=0", "radio://0/80/2M/E7E7E7E701", "radio:/", "usb://0"] {
        assert_eq!(parse_radio_uri(&uri_with_default_timeout(uri)), parse_radio_uri(uri));
    }
    assert_eq!(uri_without_safelink("radio://0"), "radio://0?safelink=0");
    assert_eq!(uri_without_safelink("radio://0?a=1"), "radio://0?a=1&safelink=0");
}

#[test]
fn radio_addresses_are_read() {
    assert_eq!(parse_radio_uri("radio://0/80/2M/E7E7E7E701"), Some((0, 80, [0xe7, 0xe7, 0xe7, 0xe7, 0x01])));
    assert_eq!(parse_radio_uri("radio://1/5/250K/ab?safelink=0"), Some((1, 5, [0, 0, 0, 0, 0xab])));
    assert_eq!(parse_radio_uri("radio://0/256/2M/E7E7E7E7E7"), None);
    assert_eq!(parse_radio_uri("radio://0/80/2M"), None);
    assert_eq!(parse_radio_uri("radio://x/80/2M/E7E7E7E7E7"), None);
    assert_eq!(parse_radio_uri("radio://0/80/2M/E7E7E7E7G7"), None);
    assert_eq!(parse_radio_uri("usb://0"), None);
}

#[test]
fn channels_are_listed_once() {
    let uris: Vec<String> = ["radio://1/7/2M/01", "radio://0/90/2M/01", "radio://1/7/2M/02", "usb://0", "radio://0/130/2M/01"]
        .iter()
        .map(|u| u.to_string())
        .collect();
    let list = radio_channels(&uris);
    assert_eq!(list, vec![(0, 90), (0, 130), (1, 7)]);
    assert_eq!(broadcast_channels(&list), vec![(0, 90), (1, 7)]);
    assert!(is_radio_channel(125) && !is_radio_channel(126));
}

#[test]
fn power_commands_are_packets() {
    assert_eq!(send_bootloader_command(PowerCommand::AllOff), vec![0xff, 0xfe, 0x01]);
    assert_eq!(send_bootloader_command(PowerCommand::SysOff), vec![0xff, 0xfe, 0x02]);
    assert_eq!(send_bootloader_command(PowerCommand::SysOn), vec![0xff, 0xfe, 0x03]);
    assert_eq!(send_bootloader_command(PowerCommand::ResetInit), vec![0xff, 0xfe, 0xff]);
    assert_eq!(send_bootloader_command(PowerCommand::ResetToFirmware), vec![0xff, 0xfe, 0xf0, 0x01]);
    assert_eq!(power_commands(PowerAction::Reboot), vec![PowerCommand::ResetInit, PowerCommand::ResetToFirmware]);
    assert_eq!(power_commands(PowerAction::Wake), vec![PowerCommand::SysOn]);
    assert!(disconnects(PowerAction::Reboot) && disconnects(PowerAction::PowerOff));
    assert!(!disconnects(PowerAction::Sleep) && !disconnects(PowerAction::Wake));
}

#[test]
fn blinking_counts_down() {
    assert_eq!(broadcast_address(), [0xff, 0xe7, 0xe7, 0xe7, 0xe7]);
    assert_eq!(blink_packet(0x1234), vec![0xf3, 0x80, 0x01, 0x00, 0x34, 0x12]);
    assert_eq!(blink_delays(), vec![100, 80, 60, 40, 20]);
    assert_eq!(delayed_blink_packet(0), Some(blink_packet(5000)));
    assert_eq!(delayed_blink_packet(4999), Some(blink_packet(1)));
    assert_eq!(delayed_blink_packet(5000), None);
    assert_eq!(delayed_blink_packet(65536), None);
    assert_eq!(delayed_blink_packet(u64::MAX), None);
}

#[test]
fn the_channel_test_visits_every_channel() {
    let mut test = ChannelTest::new(42, [1, 2, 3, 4, 5]).unwrap_or_else(|_| panic!());
    let mut unit_channel = 42u8;
    let mut finished = Vec::new();
    let mut sent = 0;
    while let Some(packet) = test.next_packet() {
        if packet.bytes.len() == 4 {
            assert_eq!(&packet.bytes[..3], &[0xff, 0x03, 0x01]);
            unit_channel = packet.bytes[3];
        } else {
            assert_eq!(packet.channel, unit_channel);
        }
        let probe = packet.bytes == vec![0xff];
        let answer = Some(Ack { received: probe && packet.channel % 2 == 0, rssi: Some(packet.channel) });
        if let Some(c) = test.on_answer(answer) {
            finished.push(c);
        }
        sent += 1;
    }
    assert_eq!(sent, TEST_PACKETS);
    assert_eq!(unit_channel, 42);
    assert_eq!(finished, (0..NUM_CHANNELS).collect::<Vec<u8>>());
    assert_eq!(test.tally(10).acks, PACKETS_PER_CHANNEL);
    assert_eq!(test.tally(10).rssi_sum, 200);
    assert_eq!(test.tally(11).acks, 0);
    assert_eq!(ChannelTest::new(126, [0; 5]).err(), Some(TestRefusal::InvalidChannel));
    assert_eq!(channel_status(0), "Testing channel 1/81...");
}

#[test]
fn the_channel_test_needs_a_radio_address() {
    assert_eq!(run_radio_channel_test("radio://0/80/2M/E7"), Ok((0, 80, [0, 0, 0, 0, 0xe7])));
    assert_eq!(run_radio_channel_test("usb://0"), Err(TestRefusal::InvalidUri));
    assert_eq!(TestRefusal::InvalidUri.text(), "Error: invalid URI");
    assert_eq!(TestRefusal::NoRadio.text(), "Error: could not open radio");
    assert_eq!(TestRefusal::InvalidChannel.text(), "Error: invalid channel in URI");
}

#[test]
fn every_offered_target_is_known() {
    let mut decks = 0;
    for target in target_list() {
        match classify(target) {
            TargetKind::Stm32 => assert_eq!(target, "stm32-fw"),
            TargetKind::Nrf51 => assert_eq!(target, "nrf51-fw"),
            TargetKind::DeckCtrl { is_cfg } => assert_eq!(is_cfg, target.contains("cfg")),
            TargetKind::Deck { section } => {
                decks += 1;
                assert!(!section.is_empty());
            }
        }
    }
    assert_eq!(decks, 5);
    assert!(matches!(classify("anything"), TargetKind::Deck { section } if section == "anything"));
}

#[test]
fn the_unit_tells_its_bootloader_address() {
    let reply = [0xfe, 0xff, 1, 2, 3, 4, 0];
    let address = address_from_reply(&reply);
    assert_eq!(address, Some([0xb1, 4, 3, 2, 1]));
    assert!(address_from_reply(&[0xfe, 0xff]).is_none());
    assert!(address_from_reply(&[0xfe, 0xfe, 1, 2, 3, 4]).is_none());
    let mut phase = ResetPhase::SafelinkOff;
    let mut sent = 0;
    let mut steps = 0;
    let found = loop {
        steps += 1;
        assert!(steps < 100);
        match reset_action(&phase) {
            ResetAction::Send(_) => {
                sent += 1;
                phase = reset_and_get_bootloader_address(phase, None);
            }
            ResetAction::Receive(_) => phase = reset_and_get_bootloader_address(phase, Some(&reply)),
            ResetAction::Sleep(_) => phase = reset_and_get_bootloader_address(phase, None),
            ResetAction::Done(a) => break Some(a),
            ResetAction::Fail(_) => break None,
        }
    };
    assert_eq!(found, address);
    assert_eq!(sent, 12);
    let late = reset_and_get_bootloader_address(ResetPhase::Awaiting, None);
    assert!(matches!(reset_action(&late), ResetAction::Fail(m) if m == "Timeout waiting for bootloader address"));
}

#[test]
fn decks_are_checked_before_flashing() {
    assert_eq!(start_address(3, 1024), 3072);
    assert!(check_deck_memories(1).is_ok());
    assert_eq!(check_deck_memories(0), Err("No deck memory found (is a deck attached?)".to_string()));
    assert!(check_deck_opened(&OpenOutcome::Opened).is_ok());
    assert_eq!(
        check_deck_opened(&OpenOutcome::Failed("x".to_string())),
        Err("Could not open deck memory: x".to_string())
    );
    assert_eq!(check_deck_opened(&OpenOutcome::Missing), Err("Deck memory not found".to_string()));
    let sections = vec!["a".to_string(), "b".to_string()];
    assert_eq!(find_section(&sections, "b"), Ok(1));
    assert!(find_section(&sections, "c").unwrap_err().contains('c'));
    assert!(section_refused_text("lh").contains("lh"));
}

#[test]
fn a_deck_section_is_polled_a_bounded_number_of_times() {
    assert_eq!(flash_deck_section_inner(SectionPhase::Asking, true), SectionPhase::Writing);
    let mut phase = flash_deck_section_inner(SectionPhase::Asking, false);
    assert_eq!(phase, SectionPhase::Resetting);
    phase = flash_deck_section_inner(phase, false);
    let mut polls = 0;
    while let SectionPhase::Polling(_) = phase {
        phase = flash_deck_section_inner(phase, false);
        polls += 1;
    }
    assert_eq!(phase, SectionPhase::Refused);
    assert_eq!(polls, 50);
}

const IN_DFU_MODE: u8 = 1;
const CAN_ENABLE_DFU: u8 = 2;

fn refusal(second: bool, bytes: &[u8]) -> String {
    let mut phase = flash_deck_ctrl(DfuPhase::Reading { second }, DfuEvent::Bytes(bytes.to_vec()));
    if matches!(dfu_action(&phase, false), DfuAction::Disconnect) {
        phase = flash_deck_ctrl(phase, DfuEvent::Done);
    }
    match dfu_action(&phase, false) {
        DfuAction::Finish(Err(m)) => m,
        _ => String::new(),
    }
}

#[test]
fn the_deck_controller_refuses_with_a_reason() {
    assert_eq!(refusal(false, &[2, 1, CAN_ENABLE_DFU, 0]), "Unsupported DeckCtrlDFU version: 2");
    assert_eq!(
        refusal(false, &[1, 2, CAN_ENABLE_DFU, 0]),
        "Cannot enter DFU: expected at most one DeckCtrl deck attached, found 2"
    );
    assert_eq!(refusal(false, &[1, 1, 0, 0]), "Cannot enter DFU: STATUS_CAN_ENABLE_DFU is not set");
    assert_eq!(refusal(true, &[1, 1, CAN_ENABLE_DFU, 0]), "DeckCtrl did not enter DFU mode");
    let absent = flash_deck_ctrl(DfuPhase::Looking { second: false }, DfuEvent::Found(0));
    assert!(matches!(dfu_action(&absent, false), DfuAction::Finish(Err(m)) if m == "DeckCtrlDFU memory not present, cannot flash DeckCtrl"));
    let many = flash_deck_ctrl(DfuPhase::Looking { second: false }, DfuEvent::Found(3));
    assert!(matches!(dfu_action(&many, false), DfuAction::Finish(Err(m)) if m == "Multiple DeckCtrlDFU memories found (3), cannot flash DeckCtrl"));
    let image = dfu_action(&DfuPhase::Writing, false);
    assert!(matches!(image, DfuAction::WriteImage(0x10000)));
}

#[test]
fn the_deck_controller_is_left_again() {
    let header = read_deck_ctrl_dfu_header(&[3, 1, 2]);
    assert_eq!((header.version, header.deck_ctrl_count, header.status), (3, 1, 2));
    let mut phase = DfuPhase::Connecting { second: false };
    let mut commands = Vec::new();
    let mut entered = false;
    let result = loop {
        let event = match dfu_action(&phase, true) {
            DfuAction::Connect | DfuAction::Disconnect | DfuAction::Sleep(_) => DfuEvent::Done,
            DfuAction::CountMemories => DfuEvent::Found(1),
            DfuAction::OpenMemory => DfuEvent::Open(OpenOutcome::Opened),
            DfuAction::Read(_, n) => {
                assert!(n >= 3);
                let mut bytes = vec![0u8; n];
                bytes[0] = 1;
                bytes[1] = 1;
                bytes[2] = if entered { IN_DFU_MODE } else { CAN_ENABLE_DFU };
                DfuEvent::Bytes(bytes)
            }
            DfuAction::WriteByte(at, value) => {
                entered = true;
                commands.push((at, value));
                DfuEvent::Done
            }
            DfuAction::WriteImage(at) => {
                commands.push((at, 0));
                DfuEvent::Failed("broken".to_string())
            }
            DfuAction::Finish(r) => break r,
        };
        phase = flash_deck_ctrl(phase, event);
        assert!(commands.len() < 20);
    };
    assert_eq!(result, Err("broken".to_string()));
    assert_eq!(commands[1], (0x17800, 0));
    assert_eq!(commands.first(), Some(&(3, 1)));
    assert_eq!(commands.last(), Some(&(3, 2)));
}
