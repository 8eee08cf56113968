use m5mic::adpcm::{ima_adpcm4_decode, ima_adpcm4_encode, ImaAdpcmState};
use m5mic::control::{
    parse_control_command, ControlAction, ControlCommand, ControlMode, CONTROL_MODE_USB,
    CONTROL_PRIORITY_LEGACY, CONTROL_PRIORITY_PHONE, CONTROL_RECORD_STOP,
};
use m5mic::discovery::{
    discovery_response_priority, discovery_response_url, RECEIVER_PRIORITY_PHONE,
};
use m5mic::fragment::{
    ble_audio_fragment_payload_capacity, BleAudioFragmentHeader, BLE_AUDIO_FRAGMENT_HEADER_LEN,
};
use m5mic::frame::{
    AudioFrameHeader, Codec, FLAG_PUSH_TO_TALK, FLAG_STREAM_START, HEADER_LEN,
};

#[test]
fn frame_header_round_trips_stream_metadata() {
    let header = AudioFrameHeader::new(
        Codec::PcmS16Le,
        1,
        16_000,
        42,
        123_456,
        640,
        0xaabb_ccdd,
        FLAG_STREAM_START | FLAG_PUSH_TO_TALK,
    );
    let mut encoded = [0u8; HEADER_LEN + 640];

    header.encode_into(&mut encoded).unwrap();
    let decoded = AudioFrameHeader::decode(&encoded).unwrap();

    assert_eq!(decoded, header);
    assert!(decoded.is_stream_start());
    assert!(!decoded.is_stream_end());
    assert!(decoded.is_push_to_talk());
}

#[test]
fn frame_header_round_trips_adpcm_codec() {
    let header = AudioFrameHeader::new(
        Codec::ImaAdpcm4,
        1,
        16_000,
        7,
        88_000,
        320,
        0x1234_5678,
        FLAG_STREAM_START,
    );
    let mut encoded = [0u8; HEADER_LEN + 320];

    header.encode_into(&mut encoded).unwrap();
    let decoded = AudioFrameHeader::decode(&encoded).unwrap();

    assert_eq!(decoded, header);
    assert_eq!(decoded.codec.as_str(), "ima_adpcm4");
}

#[test]
fn ima_adpcm4_encodes_40ms_frame_to_quarter_size() {
    let mut pcm = [0u8; 1_280];
    for (index, sample) in pcm.chunks_exact_mut(2).enumerate() {
        let value = (((index as i32 % 128) - 64) * 256) as i16;
        sample.copy_from_slice(&value.to_le_bytes());
    }
    let mut encoded = [0u8; 320];
    let mut state = ImaAdpcmState::new();

    let written = ima_adpcm4_encode(&pcm, &mut encoded, &mut state).unwrap();

    assert_eq!(written, 320);
}

#[test]
fn ima_adpcm4_round_trip_tracks_signal_shape() {
    let mut pcm = [0u8; 1_280];
    for (index, sample) in pcm.chunks_exact_mut(2).enumerate() {
        let phase = index as i32 % 160;
        let value = if phase < 80 {
            -16_000 + phase * 400
        } else {
            16_000 - (phase - 80) * 400
        } as i16;
        sample.copy_from_slice(&value.to_le_bytes());
    }

    let mut encoded = [0u8; 320];
    let mut encode_state = ImaAdpcmState::new();
    let written = ima_adpcm4_encode(&pcm, &mut encoded, &mut encode_state).unwrap();

    let mut decoded = [0u8; 1_280];
    let mut decode_state = ImaAdpcmState::new();
    let decoded_len =
        ima_adpcm4_decode(&encoded[..written], 640, &mut decoded, &mut decode_state).unwrap();

    assert_eq!(decoded_len, pcm.len());
    let mut absolute_error_sum = 0u64;
    for (expected, actual) in pcm.chunks_exact(2).zip(decoded.chunks_exact(2)) {
        let expected = i16::from_le_bytes([expected[0], expected[1]]) as i32;
        let actual = i16::from_le_bytes([actual[0], actual[1]]) as i32;
        absolute_error_sum += expected.abs_diff(actual) as u64;
    }
    let mean_absolute_error = absolute_error_sum / 640;
    assert!(mean_absolute_error < 2_500);
    assert_eq!(encode_state, decode_state);
}

#[test]
fn ima_adpcm4_streaming_state_matches_one_pass() {
    let mut pcm = [0u8; 1_280];
    for (index, sample) in pcm.chunks_exact_mut(2).enumerate() {
        let value = ((index as i32 * 97 % 40_000) - 20_000) as i16;
        sample.copy_from_slice(&value.to_le_bytes());
    }

    let mut one_pass = [0u8; 320];
    let mut one_pass_state = ImaAdpcmState::new();
    ima_adpcm4_encode(&pcm, &mut one_pass, &mut one_pass_state).unwrap();

    let mut split = [0u8; 320];
    let mut split_state = ImaAdpcmState::new();
    let first = ima_adpcm4_encode(&pcm[..640], &mut split[..160], &mut split_state).unwrap();
    let second = ima_adpcm4_encode(&pcm[640..], &mut split[160..], &mut split_state).unwrap();

    assert_eq!(first, 160);
    assert_eq!(second, 160);
    assert_eq!(split, one_pass);
    assert_eq!(split_state, one_pass_state);
}

#[test]
fn ble_audio_fragment_header_round_trips() {
    let header = BleAudioFragmentHeader::new(99, 1, 3, 12).unwrap();
    let mut encoded = [0u8; BLE_AUDIO_FRAGMENT_HEADER_LEN + 12];
    encoded[BLE_AUDIO_FRAGMENT_HEADER_LEN..].copy_from_slice(b"hello world!");

    header.encode_into(&mut encoded).unwrap();
    let decoded = BleAudioFragmentHeader::decode(&encoded).unwrap();

    assert_eq!(decoded, header);
    assert_eq!(decoded.payload(&encoded).unwrap(), b"hello world!");
}

#[test]
fn ble_audio_fragment_capacity_accounts_for_header() {
    assert_eq!(
        ble_audio_fragment_payload_capacity(185),
        185 - BLE_AUDIO_FRAGMENT_HEADER_LEN
    );
    assert_eq!(ble_audio_fragment_payload_capacity(4), 0);
}

#[test]
fn discovery_response_uses_first_token_as_url() {
    let payload = "M5MIC_SERVER_V1 ws://10.0.0.5:47776/audio source=ios priority=100\n";

    assert_eq!(
        discovery_response_url(payload),
        Some("ws://10.0.0.5:47776/audio")
    );
    assert_eq!(
        discovery_response_priority(payload),
        RECEIVER_PRIORITY_PHONE
    );
}

#[test]
fn control_command_accepts_priority_metadata() {
    let command = parse_control_command(b"M5MIC_MODE_WIFI_V1 source=ios priority=100").unwrap();

    assert_eq!(
        command,
        ControlCommand {
            action: ControlAction::SetMode(ControlMode::Wifi),
            priority: CONTROL_PRIORITY_PHONE
        }
    );
}

#[test]
fn legacy_control_command_gets_low_priority() {
    let command = parse_control_command(CONTROL_MODE_USB.as_bytes()).unwrap();

    assert_eq!(
        command,
        ControlCommand {
            action: ControlAction::SetMode(ControlMode::Usb),
            priority: CONTROL_PRIORITY_LEGACY
        }
    );
}

#[test]
fn record_control_command_accepts_priority_metadata() {
    let command = parse_control_command(b"M5MIC_RECORD_START_V1 source=ios priority=100").unwrap();

    assert_eq!(
        command,
        ControlCommand {
            action: ControlAction::RecordStart,
            priority: CONTROL_PRIORITY_PHONE
        }
    );
    assert_eq!(
        parse_control_command(CONTROL_RECORD_STOP.as_bytes()).unwrap(),
        ControlCommand {
            action: ControlAction::RecordStop,
            priority: CONTROL_PRIORITY_LEGACY
        }
    );
}
