use owl_wave::command_processor::{MidiMsg, OwlCommandProcessor};
use owl_wave::commands::Command;
use owl_wave::crc32::crc32;
use owl_wave::resources::ResourceState;
use owl_wave::sysex::{encode32, encode_bytes};

const MFG: u8 = 0x7d;
const DEV: u8 = 0x20;

fn enc32(v: u32) -> Vec<u8> {
    let mut buf = vec![0u8; 5];
    encode32(v, &mut buf).unwrap();
    buf
}

#[test]
fn test_firmware_version_scenario() {
    let mut p = OwlCommandProcessor::new();
    p.handle_sysex(&[MFG, DEV, 0x20, b'v', b'1', b'.', b'0', 0]);
    assert_eq!(p.firmware_version, Some("v1.0".to_string()));
    assert_eq!(p.log, "< SYSEX_FIRMWARE_VERSION = v1.0\n");
}

#[test]
fn test_unaddressed_frame_logged_verbatim() {
    let mut p = OwlCommandProcessor::new();
    p.handle_sysex(&[0x11, 0x22, 0x20, b'x', 0]);
    assert_eq!(p.firmware_version, None);
    assert_eq!(p.log, "< SYSEX [17, 34, 32, 120, 0]\n");
}

#[test]
fn test_other_message_logged_verbatim() {
    let mut p = OwlCommandProcessor::new();
    p.handle_midi_message(&MidiMsg::Other(vec![0xf8]));
    assert_eq!(p.log, "< MIDI Other [248]\n");
}

#[test]
fn test_unrecognized_command_logged() {
    let mut p = OwlCommandProcessor::new();
    p.handle_sysex(&[MFG, DEV, 0x5f]);
    assert_eq!(p.log, "< CMD 95\n");
    assert_eq!(p.firmware_version, None);
}

#[test]
fn test_program_message_and_error_and_stats() {
    let mut p = OwlCommandProcessor::new();
    p.handle_sysex(&[MFG, DEV, 0x22, b'h', b'i', 0]);
    assert_eq!(p.program_message, Some("hi".to_string()));
    p.handle_sysex(&[MFG, DEV, 0x30, b'b', b'a', b'd', 0]);
    assert_eq!(p.error_message, Some("bad".to_string()));
    p.handle_sysex(&[MFG, DEV, 0x24, b'o', b'k', 0]);
    assert_eq!(p.program_stats, Some("ok".to_string()));
}

#[test]
fn test_parameter_name_announcement() {
    let mut p = OwlCommandProcessor::new();
    p.handle_sysex(&[MFG, DEV, 0x02, 1, b'G', b'a', b'i', b'n', 0]);
    assert_eq!(p.parameters.len(), 1);
    assert_eq!(p.parameters[0].0, 1);
    assert_eq!(p.parameters[0].1.name, "Gain".to_string());
    assert_eq!(p.parameters[0].1.midi_value, 0);
    // a later announcement renames without touching numeric state
    p.handle_midi_message(&MidiMsg::ControlChange(0, 1, 99));
    p.handle_sysex(&[MFG, DEV, 0x02, 1, b'L', b'v', b'l', 0]);
    assert_eq!(p.parameters.len(), 1);
    assert_eq!(p.parameters[0].1.name, "Lvl".to_string());
    assert_eq!(p.parameters[0].1.midi_value, 99);
}

#[test]
fn test_preset_name_announcement() {
    let mut p = OwlCommandProcessor::new();
    let mut payload = vec![MFG, DEV, 0x01, 2, b'L', b'o', b'o', b'p', 0];
    payload.extend(enc32(1234));
    payload.extend(enc32(0xabcd));
    p.handle_sysex(&payload);
    assert_eq!(p.patches.len(), 3);
    assert_eq!(p.patches[0], None);
    assert_eq!(p.patches[1], None);
    let r = p.patches[2].as_ref().unwrap();
    assert_eq!(r.id, 2);
    assert_eq!(r.name, "Loop".to_string());
    assert_eq!(r.size, 1234);
    assert_eq!(r.checksum, 0xabcd);
    // entry 0 is absent, so there is no current patch name
    assert_eq!(p.patch_name, None);

    let mut payload = vec![MFG, DEV, 0x01, 0, b'M', b'a', b'i', b'n', 0];
    payload.extend(enc32(64));
    payload.extend(enc32(1));
    p.handle_sysex(&payload);
    assert_eq!(p.patches.len(), 3);
    assert_eq!(p.patch_name, Some("Main".to_string()));
}

#[test]
fn test_resource_name_offset() {
    let mut p = OwlCommandProcessor::new();
    // the first reported index fixes the offset
    let mut payload = vec![MFG, DEV, 0x04, 5, b'w', b'a', b'v', 0];
    payload.extend(enc32(10));
    payload.extend(enc32(11));
    p.handle_sysex(&payload);
    assert_eq!(p.resource_offset, 5);
    assert_eq!(p.resources.len(), 1);
    assert_eq!(p.resources[0].as_ref().unwrap().name, "wav".to_string());

    let mut payload = vec![MFG, DEV, 0x04, 7, b's', b'u', b'b', 0];
    payload.extend(enc32(20));
    payload.extend(enc32(21));
    p.handle_sysex(&payload);
    assert_eq!(p.resources.len(), 3);
    assert_eq!(p.resources[1], None);
    assert_eq!(p.resources[2].as_ref().unwrap().name, "sub".to_string());
}

#[test]
fn test_configuration_value() {
    let mut p = OwlCommandProcessor::new();
    // key 0x4653 ("FS"), value "1A" hexadecimal = 26 decimal
    p.handle_sysex(&[MFG, DEV, 0x03, 0x46, 0x53, b'1', b'A', 0]);
    assert_eq!(p.settings.len(), 1);
    assert_eq!(p.settings[0].0, 0x4653);
    assert_eq!(p.settings[0].1, "26".to_string());
    // a negative value parses with its sign
    p.handle_sysex(&[MFG, DEV, 0x03, 0x46, 0x53, b'-', b'2', 0]);
    assert_eq!(p.settings.len(), 1);
    assert_eq!(p.settings[0].1, "-2".to_string());
}

#[test]
fn test_configuration_bad_hex_stores_nothing() {
    let mut p = OwlCommandProcessor::new();
    p.handle_sysex(&[MFG, DEV, 0x03, 0x42, 0x53, b'Z', b'9', 0]);
    assert_eq!(p.settings.len(), 0);
    assert_eq!(p.log, "! Error parsing Z9 as hex\n");
}

#[test]
fn test_firmware_upload_flow() {
    let data: Vec<u8> = (0u8..50).map(|i| i.wrapping_mul(19)).collect();
    let mut enc = vec![0u8; 128];
    let e = encode_bytes(&data, &mut enc).unwrap();

    let mut p = OwlCommandProcessor::new();
    // chunk index 0 resets the machine and carries the size
    let mut frame = vec![MFG, DEV, 0x10];
    frame.extend(enc32(0));
    frame.extend(enc32(data.len() as u32));
    p.handle_sysex(&frame);
    assert_eq!(p.resource_data.state, ResourceState::InProgress);
    assert_eq!(p.resource_data.size, 50);

    let mut frame = vec![MFG, DEV, 0x10];
    frame.extend(enc32(1));
    frame.extend(&enc[..e.bytes_written]);
    p.handle_sysex(&frame);
    assert_eq!(p.resource_data.state, ResourceState::Complete);
    assert_eq!(p.resource_data.data, data);

    let mut frame = vec![MFG, DEV, 0x10];
    frame.extend(enc32(2));
    frame.extend(enc32(crc32(&data)));
    p.handle_sysex(&frame);
    assert_eq!(p.resource_data.state, ResourceState::Success);
}

#[test]
fn test_request_settings_clears_lists() {
    let mut p = OwlCommandProcessor::new();
    p.patches.push(Some(owl_wave::resources::Resource::new(
        0,
        "x".to_string(),
        1,
        2,
    )));
    let msg = p.request_settings(Command::PresetName);
    assert_eq!(msg, vec![0xb0, 67, 0x01]);
    assert_eq!(p.patches.len(), 0);
    assert_eq!(p.log, "> SYSEX_PRESET_NAME_COMMAND\n");

    p.resource_offset = 9;
    p.resources.push(None);
    let msg = p.request_settings(Command::ResourceName);
    assert_eq!(msg, vec![0xb0, 67, 0x04]);
    assert_eq!(p.resources.len(), 0);
    assert_eq!(p.resource_offset, 0);
}

#[test]
fn test_send_sysex_command_frame() {
    let mut p = OwlCommandProcessor::new();
    let msg = p.send_sysex_command(Command::DeviceReset);
    assert_eq!(msg, vec![0xf0, 0x7d, 0x52, 0x7d, 0xf7]);
    assert_eq!(p.log, "> SYSEX_DEVICE_RESET_COMMAND\n");
}

#[test]
fn test_send_sysex_string_frame() {
    let mut p = OwlCommandProcessor::new();
    let msg = p.send_sysex_string(Command::Configuration, b"1A");
    assert_eq!(msg, vec![0xf0, 0x7d, 0x52, 0x03, b'1', b'A', 0xf7]);
    assert_eq!(p.log, "> SYSEX_CONFIGURATION_COMMAND = 1A\n");
}

#[test]
fn test_send_message_program_change_clears_parameters() {
    let mut p = OwlCommandProcessor::new();
    p.handle_midi_message(&MidiMsg::ControlChange(0, 3, 17));
    assert_eq!(p.parameters.len(), 1);
    let bytes = p.send_message(&MidiMsg::ProgramChange(0, 5));
    assert_eq!(bytes, vec![0xc0, 5]);
    assert_eq!(p.parameters.len(), 0);
}

#[test]
fn test_handle_midi_message_control_change() {
    let mut p = OwlCommandProcessor::new();
    // controller 0 is parameter A
    p.handle_midi_message(&MidiMsg::ControlChange(0, 0, 64));
    assert_eq!(p.parameters.len(), 1);
    assert_eq!(p.parameters[0].0, 0);
    assert_eq!(p.parameters[0].1.name, "A".to_string());
    assert_eq!(p.parameters[0].1.midi_value, 64);
    assert_eq!(p.log, "< PARAMETER A = 64\n");
    // a controller outside the parameter namespace only logs
    p.handle_midi_message(&MidiMsg::ControlChange(0, 64, 1));
    assert_eq!(p.parameters.len(), 1);
    assert_eq!(p.log, "< PARAMETER A = 64\n< CC64 = 1\n");
}

#[test]
fn test_command_round_trip() {
    for b in 0u8..=0x7f {
        if let Some(c) = Command::from_byte(b) {
            assert_eq!(c.as_byte(), b);
        }
    }
    assert_eq!(Command::from_byte(0x20), Some(Command::FirmwareVersion));
    assert_eq!(Command::from_byte(0x5f), None);
}
