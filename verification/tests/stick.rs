use m5mic::adpcm::{ima_adpcm4_encode, ima_adpcm4_encoded_len, ImaAdpcmState};
use m5mic::control::{ActiveMode, ControlEvent, ModeCommand, CONTROL_PRIORITY_PHONE};
use m5mic::display::{Brightness, RecordModeView};
use m5mic::es8311::{Es8311, RegisterWrite};
use m5mic::frame::{
    AudioFrameHeader, Codec, FLAG_PUSH_TO_TALK, FLAG_STREAM_START, HEADER_LEN,
};
use m5mic::i2c_bus::{
    acknowledged, byte_of_bits, clock_wait, finish, read_byte, recovery_goes_on, start, stop,
    write_byte, write_read, BusCommand, BusError, ClockWait, LineStep, STRETCH_LIMIT,
};
use m5mic::power::{
    battery_percent, battery_status, init_sticks3_power, power_source, read_battery_view,
    BatteryStatus, BatteryView, PowerSource, RegisterUpdate,
};
use m5mic::provision::ProvisionedWifi;
use m5mic::receiver::{FrameAction, SocketSession};
use m5mic::recording::{
    ble_wait_at, decrement_queued_frames, end_sequence, event_stops_stream, mode_flags,
    next_stream_id, send_step, stops_stream, stream_end, stream_end_frame, BleWaitStep, Capture,
    RecordMode, ReceiverCache, SendEnd, SendLoop, SendStep, StreamEnd, Waited, ADPCM_BYTES,
    FRAME_BYTES, FRAME_MS, FRAME_SAMPLES, PCM_BYTES, SAMPLE_RATE,
};
use m5mic::session::{
    action_for_button_b, action_when_idle, action_when_usb, button_b_action, hold_us,
    record_request, transport_for, ButtonBAction, Device, IdleAction, MainStep, Press, PressStep,
    RefreshTimer, UsbLevel, PUSH_TO_TALK_HOLD_MS,
};
use m5mic::usb_audio::{after_read, ReadProgress, TransportMode, UsbAudioState};
use m5mic::wifi_config::{
    auth_method, choose_credentials, fallback_credentials, load_settings, save_settings,
    stored_credentials, validate_credentials, AppSettings, BatteryBrightness, CredentialsError,
    WifiAuth, WifiCredentials, WirelessCodec,
};

fn credentials(ssid: &str, password: &str) -> WifiCredentials {
    WifiCredentials {
        ssid: ssid.to_string(),
        password: password.to_string(),
    }
}

fn tone() -> Vec<u8> {
    (0..640i32)
        .flat_map(|i| (((i % 100) * 300 - 15_000) as i16).to_le_bytes())
        .collect()
}

#[test]
fn credentials_are_checked_before_they_are_stored() {
    assert_eq!(validate_credentials(&credentials("a", "")), Ok(()));
    assert_eq!(
        validate_credentials(&credentials("", "p")),
        Err(CredentialsError::SsidMissing)
    );
    assert_eq!(
        validate_credentials(&credentials(&"s".repeat(33), "p")),
        Err(CredentialsError::SsidTooLong)
    );
    assert_eq!(
        validate_credentials(&credentials("s", &"p".repeat(65))),
        Err(CredentialsError::PasswordTooLong)
    );
    assert_eq!(CredentialsError::SsidMissing.message(), "wifi ssid is required");
    assert_eq!(
        CredentialsError::NoFallbackSsid.message(),
        "WIFI_SSID is required"
    );
}

#[test]
fn stored_credentials_come_before_the_built_in_ones() {
    let chosen =
        choose_credentials(Some(credentials("home", "x")), Some("built"), Some("in")).unwrap();
    assert_eq!((chosen.ssid.as_str(), chosen.password.as_str()), ("home", "x"));
    let fallback = choose_credentials(None, Some("built"), Some("in")).unwrap();
    assert_eq!(fallback.ssid, "built");
    assert_eq!(
        fallback_credentials(None, Some("in")).map(|c| c.ssid),
        Err(CredentialsError::NoFallbackSsid)
    );
    assert_eq!(
        fallback_credentials(Some("built"), None).map(|c| c.ssid),
        Err(CredentialsError::NoFallbackPassword)
    );
    assert_eq!(
        fallback_credentials(Some(""), Some("in")).map(|c| c.ssid),
        Err(CredentialsError::SsidMissing)
    );
    assert!(stored_credentials(None, Some("p")).is_none());
    assert!(stored_credentials(Some(""), Some("p")).is_none());
    assert_eq!(stored_credentials(Some("s"), None).unwrap().password, "");
    assert_eq!(auth_method(&credentials("s", "")), WifiAuth::Open);
    assert_eq!(auth_method(&credentials("s", "p")), WifiAuth::Wpa2Personal);
}

#[test]
fn settings_are_stored_and_loaded() {
    let defaults = load_settings(None, None, None);
    assert_eq!(defaults, AppSettings::default());
    assert_eq!(defaults.battery_brightness, BatteryBrightness::Dim);
    assert!(defaults.recording_battery_saver);
    assert_eq!(defaults.wireless_codec, WirelessCodec::PcmS16Le);
    for battery_brightness in [BatteryBrightness::Dim, BatteryBrightness::Full] {
        for recording_battery_saver in [false, true] {
            for wireless_codec in [WirelessCodec::PcmS16Le, WirelessCodec::ImaAdpcm4] {
                let settings = AppSettings {
                    battery_brightness,
                    recording_battery_saver,
                    wireless_codec,
                };
                let stored = save_settings(settings);
                let loaded = load_settings(
                    Some(stored.brightness),
                    Some(stored.saver),
                    Some(stored.codec),
                );
                assert_eq!(loaded, settings);
            }
        }
    }
    let odd = load_settings(Some("FULL"), Some("no"), Some("mp3"));
    assert_eq!(odd, AppSettings::default());
    assert_eq!(WirelessCodec::ImaAdpcm4.label(), "ADPCM");
    assert_eq!(WirelessCodec::ImaAdpcm4.as_str(), "ima_adpcm4");
    assert_eq!(WirelessCodec::ImaAdpcm4.protocol_codec(), Codec::ImaAdpcm4);
    assert_eq!(WirelessCodec::PcmS16Le.protocol_codec(), Codec::PcmS16Le);
}

#[test]
fn charge_follows_the_voltage() {
    for (millivolts, percent) in [
        (0, 0),
        (3300, 0),
        (3301, 0),
        (3330, 1),
        (3600, 10),
        (3650, 15),
        (3725, 25),
        (3790, 40),
        (3830, 50),
        (3850, 55),
        (3990, 82),
        (4149, 99),
        (4150, 100),
        (5000, 100),
    ] {
        assert_eq!(battery_percent(millivolts), percent, "{millivolts}");
    }
}

#[test]
fn power_comes_from_somewhere() {
    assert_eq!(power_source(0x08), PowerSource::FiveVoltIn);
    assert_eq!(power_source(0xf1), PowerSource::FiveVoltInOut);
    assert_eq!(power_source(2), PowerSource::Battery);
    assert_eq!(power_source(7), PowerSource::Unknown);
    let status = battery_status(3830, 2);
    assert_eq!(
        status,
        BatteryStatus {
            millivolts: 3830,
            percent: 50,
            power_source: PowerSource::Battery
        }
    );
    let view = |percent, external_power| BatteryView {
        percent,
        external_power,
    };
    assert_eq!(read_battery_view(None, Some((5000, 5000))), BatteryView::unknown());
    assert_eq!(BatteryView::unknown(), view(None, false));
    assert_eq!(read_battery_view(Some(status), None), view(Some(50), false));
    assert_eq!(
        read_battery_view(Some(status), Some((4299, 4299))),
        view(Some(50), false)
    );
    assert_eq!(
        read_battery_view(Some(status), Some((4300, 0))),
        view(Some(50), true)
    );
    assert_eq!(
        read_battery_view(Some(status), Some((0, 4300))),
        view(Some(50), true)
    );
    assert_eq!(
        read_battery_view(Some(battery_status(3830, 1)), None),
        view(Some(50), true)
    );
}

#[test]
fn registers_are_set_up() {
    let updates = init_sticks3_power();
    assert_eq!(updates.len(), 6);
    assert_eq!(
        updates[0],
        RegisterUpdate::SetBits {
            register: 0x06,
            mask: 0x04
        }
    );
    assert_eq!(updates[0].apply(0x41), 0x45);
    assert_eq!(updates[1].apply(0x41), 0x00);
    assert_eq!(updates[2].apply(0x47), 0x43);
    let writes = Es8311::enable_adc();
    assert_eq!(writes.len(), 8);
    assert_eq!(
        writes[1],
        RegisterWrite {
            register: 0x01,
            value: 0xba
        }
    );
    assert_eq!(Es8311::disable().len(), 3);
}

#[test]
fn bytes_go_over_two_wires() {
    let levels = |steps: &[LineStep]| -> Vec<bool> {
        let mut sda = true;
        let mut sampled = Vec::new();
        for step in steps {
            match step {
                LineStep::ReleaseSda => sda = true,
                LineStep::DriveSdaLow => sda = false,
                LineStep::ReleaseScl => sampled.push(sda),
                _ => {}
            }
        }
        sampled
    };
    for byte in 0..=255u8 {
        let steps = write_byte(byte);
        assert_eq!(steps.len(), 64);
        let sent = levels(&steps);
        assert_eq!(sent.len(), 9);
        assert_eq!(byte_of_bits(&sent[..8]), byte);
        assert!(sent[8]);
    }
    assert_eq!(*levels(&read_byte(true)).last().unwrap(), false);
    assert_eq!(*levels(&read_byte(false)).last().unwrap(), true);
    let samples = |steps: &[LineStep]| {
        steps
            .iter()
            .filter(|step| matches!(step, LineStep::SampleSda))
            .count()
    };
    assert_eq!(samples(&read_byte(true)), 8);
    assert_eq!(samples(&write_byte(0)), 1);
    assert_eq!(start()[4], LineStep::DriveSdaLow);
    assert_eq!(stop()[0], LineStep::DriveSdaLow);
}

#[test]
fn transactions_address_the_device() {
    assert_eq!(
        m5mic::i2c_bus::write(0x6e, &[1, 2]),
        [
            BusCommand::Start,
            BusCommand::Write(0xdc),
            BusCommand::Write(1),
            BusCommand::Write(2)
        ]
    );
    assert_eq!(
        write_read(0x18, &[4], 2),
        [
            BusCommand::Start,
            BusCommand::Write(0x30),
            BusCommand::Write(4),
            BusCommand::Start,
            BusCommand::Write(0x31),
            BusCommand::Read { ack: true },
            BusCommand::Read { ack: false }
        ]
    );
    assert_eq!(acknowledged(false), Ok(()));
    assert_eq!(acknowledged(true), Err(BusError::Nack));
    let timeout = Err(BusError::Timeout);
    let nack = Err(BusError::Nack);
    assert_eq!(finish(Ok(()), Ok(())), Ok(()));
    assert_eq!(finish(nack, timeout), nack);
    assert_eq!(finish(Ok(()), timeout), timeout);
}

#[test]
fn a_stuck_bus_is_given_up() {
    assert!(recovery_goes_on(0, false));
    assert!(recovery_goes_on(8, false));
    assert!(!recovery_goes_on(9, false));
    assert!(!recovery_goes_on(0, true));
    assert_eq!(clock_wait(0, true), ClockWait::High);
    assert_eq!(clock_wait(0, false), ClockWait::LookAgain);
    assert_eq!(clock_wait(STRETCH_LIMIT - 1, false), ClockWait::TimedOut);
}

#[test]
fn usb_gets_samples_or_silence() {
    let mut usb = UsbAudioState::new();
    assert_eq!(usb.input(3, Some(&[1, 2, 3])), [0, 0, 0]);
    usb.set_transport(TransportMode::Usb);
    assert!(usb.is_streaming());
    assert_eq!(usb.input(2, Some(&[0, 0x40])), [0, 0x40]);
    assert_eq!(usb.level, 50);
    assert_eq!(usb.input(2, None), [0, 0]);
    assert_eq!(usb.level, 0);
    usb.input(2, Some(&[0, 0x40]));
    usb.set_transport(TransportMode::Wireless);
    assert_eq!(usb, UsbAudioState::new());
    assert_eq!(after_read(10, 4, 3), ReadProgress::More { at: 7 });
    assert_eq!(after_read(10, 4, 6), ReadProgress::Done);
    assert_eq!(after_read(10, 4, 0), ReadProgress::TimedOut);
}

#[test]
fn captured_frames_are_numbered_and_flagged() {
    let pcm = tone();
    assert_eq!(pcm.len(), PCM_BYTES);
    let mut capture = Capture::new(0xabcd, RecordMode::PushToTalk, Codec::PcmS16Le);
    let first = capture.frame(&pcm, 100, true);
    let second = capture.frame(&pcm, 200, false);
    let header = AudioFrameHeader::decode(&first.bytes).unwrap();
    assert_eq!(first.bytes.len(), FRAME_BYTES);
    assert_eq!(header.flags, FLAG_STREAM_START | FLAG_PUSH_TO_TALK);
    assert_eq!((header.sequence, header.timestamp_us), (0, 100));
    assert_eq!((header.sample_rate, header.channels), (16_000, 1));
    assert_eq!(header.payload(&first.bytes).unwrap(), pcm);
    assert_eq!((first.level, second.level), (45, 0));
    let header = AudioFrameHeader::decode(&second.bytes).unwrap();
    assert_eq!((header.sequence, header.flags), (1, FLAG_PUSH_TO_TALK));

    let mut packed = Capture::new(1, RecordMode::Latched, Codec::ImaAdpcm4);
    let mut state = ImaAdpcmState::new();
    for _ in 0..3 {
        let frame = packed.frame(&pcm, 0, false);
        let mut expected = [0u8; 320];
        ima_adpcm4_encode(&pcm, &mut expected, &mut state).unwrap();
        assert_eq!(&frame.bytes[32..], &expected);
    }
}

#[test]
fn a_recording_is_received_as_it_was_sent() {
    let pcm = tone();
    for codec in [Codec::PcmS16Le, Codec::ImaAdpcm4] {
        let mut capture = Capture::new(9, RecordMode::Latched, codec);
        let mut session = SocketSession::new(false);
        let mut last = 0;
        for _ in 0..4 {
            let frame = capture.frame(&pcm, 0, false);
            last = frame.sequence;
            let step = session.on_binary(&frame.bytes).unwrap();
            assert_eq!(step.gap, None);
            match step.action {
                FrameAction::Play { pcm: played, .. } => assert_eq!(played.len(), PCM_BYTES),
                other => panic!("{other:?}"),
            }
        }
        let end = stream_end_frame(codec, end_sequence(last), 0, 9, RecordMode::Latched);
        let step = session.on_binary(&end).unwrap();
        assert_eq!(step.gap, None);
        assert!(matches!(step.action, FrameAction::End));
        assert_eq!(session.dropped_frames, 0);
    }
}

#[test]
fn recordings_have_modes_and_numbers() {
    assert!(RecordMode::PushToTalk.is_push_to_talk());
    assert!(!RecordMode::Latched.is_push_to_talk());
    assert_eq!(RecordMode::Latched.display_mode(), RecordModeView::Latched);
    assert_eq!(mode_flags(RecordMode::PushToTalk), FLAG_PUSH_TO_TALK);
    assert_eq!(mode_flags(RecordMode::Latched), 0);
    assert_eq!(next_stream_id(0x1_2345_6789), 0x2345_6789);
    assert_eq!(end_sequence(u32::MAX), 0);
    assert_eq!(decrement_queued_frames(0), 0);
    assert_eq!(decrement_queued_frames(3), 2);
    assert_eq!(FRAME_SAMPLES * 1_000, SAMPLE_RATE as usize * FRAME_MS);
    assert_eq!(PCM_BYTES, 2 * FRAME_SAMPLES);
    assert_eq!(ADPCM_BYTES, ima_adpcm4_encoded_len(PCM_BYTES));
    assert_eq!(FRAME_BYTES, HEADER_LEN + PCM_BYTES);
}

#[test]
fn a_recording_saves_power_on_battery() {
    let settings = AppSettings::default();
    let mut send = SendLoop::new(settings, 1_000_000, false);
    assert!(send.power_save);
    assert_eq!(send.level_to_show(u64::MAX), None);
    assert_eq!(send.buffer_to_show(3), None);
    let off = send.toggle_screen(2_000_000, false).unwrap();
    assert_eq!((off.brightness, off.redraw), (Brightness::Off, None));
    assert_eq!(send.time_to_show(9_000_000), None);
    let on = send.toggle_screen(9_500_000, false).unwrap();
    assert_eq!((on.brightness, on.redraw), (Brightness::Dim, Some(8)));
    assert_eq!(send.time_to_show(9_600_000), None);
    assert_eq!(send.time_to_show(10_000_000), Some(9));

    send.frame_sent(5, 60);
    send.frame_sent(6, 10);
    assert_eq!(send.meter_level, 52);
    assert_eq!((send.last_sequence, send.have_sent_audio), (6, true));
    assert!(!send.battery_due(1_999_999));
    assert!(send.battery_due(2_000_000));
    let plugged = send.battery_read(11_000_000, true);
    assert_eq!(plugged.brightness, Brightness::Full);
    assert_eq!(plugged.track_level, Some(true));
    assert_eq!(plugged.redraw, Some(10));
    assert!(plugged.live_meters);
    assert_eq!(send.toggle_screen(11_000_000, true), None);
    assert_eq!(send.level_to_show(11_000_000), Some(52));
    assert_eq!(send.level_to_show(11_199_999), None);
    assert_eq!(send.buffer_to_show(99), Some(8));
    assert_eq!(send.buffer_to_show(8), None);
    let unplugged = send.battery_read(12_000_000, false);
    assert_eq!(unplugged.track_level, Some(false));
    assert_eq!(send.meter_level, 0);
    let same = send.battery_read(13_000_000, false);
    assert_eq!((same.track_level, same.redraw), (None, None));
}

#[test]
fn a_recording_ends_well_only_by_the_user() {
    assert_eq!(stream_end(SendEnd::User, false), StreamEnd::User);
    assert_eq!(stream_end(SendEnd::CaptureEnded, true), StreamEnd::CaptureEnded);
    assert_eq!(stream_end(SendEnd::CaptureEnded, false), StreamEnd::CaptureFailed);
    assert_eq!(stream_end(SendEnd::Failed, true), StreamEnd::SendFailed);
    assert!(StreamEnd::User.is_ok());
    assert!(!StreamEnd::CaptureEnded.is_ok());
    assert!(StreamEnd::CaptureEnded.announces_end(true, true));
    assert!(!StreamEnd::User.announces_end(false, true));
    assert!(!StreamEnd::User.announces_end(true, false));
    assert!(!StreamEnd::SendFailed.announces_end(true, true));
    assert!(event_stops_stream(&Some(ControlEvent::RecordStop)));
    assert!(!event_stops_stream(&Some(ControlEvent::RecordStart { priority: 1 })));
    assert!(!event_stops_stream(&None));
    for phase in [0, 118, 119, usize::MAX] {
        assert_eq!(ble_wait_at(phase, true, true), BleWaitStep::Stream);
        assert_eq!(ble_wait_at(phase, false, true), BleWaitStep::Stopped);
    }
    assert_eq!(ble_wait_at(0, false, false), BleWaitStep::Wait);
    assert_eq!(ble_wait_at(118, false, false), BleWaitStep::Wait);
    assert_eq!(ble_wait_at(119, false, false), BleWaitStep::GiveUp);
    assert_eq!(ble_wait_at(usize::MAX, false, false), BleWaitStep::GiveUp);
}

#[test]
fn a_receiver_is_remembered_while_it_works() {
    let mut cache = ReceiverCache::new();
    assert_eq!(cache.url, None);
    cache.connected("ws://a".to_string());
    cache.stream_finished(true);
    assert_eq!(cache.url.as_deref(), Some("ws://a"));
    cache.stream_finished(false);
    assert_eq!(cache.url, None);
    cache.connected("ws://b".to_string());
    cache.forget();
    assert_eq!(cache.url, None);
}

#[test]
fn presses_are_short_or_long() {
    let hold = Some(hold_us(PUSH_TO_TALK_HOLD_MS));
    assert_eq!(hold, Some(450_000));
    let mut press = Press::Unseen;
    assert_eq!(press.look(false, 0, hold), PressStep::NotPressed);
    assert_eq!(press.look(true, 10, hold), PressStep::Settle);
    assert_eq!(press.look(true, 30_000, hold), PressStep::Pressed);
    assert_eq!(press.look(true, 479_999, hold), PressStep::Hold);
    assert_eq!(press.look(true, 480_000, hold), PressStep::Held);
    assert_eq!(press.look(true, 900_000, None), PressStep::Hold);
    assert_eq!(press.look(false, 900_000, hold), PressStep::Released);
    let mut bounce = Press::Unseen;
    assert_eq!(bounce.look(true, 0, hold), PressStep::Settle);
    assert_eq!(bounce.look(false, 1, hold), PressStep::NotPressed);
    assert_eq!(record_request(PressStep::Held), Some(RecordMode::PushToTalk));
    assert_eq!(record_request(PressStep::Released), Some(RecordMode::Latched));
    assert_eq!(record_request(PressStep::Hold), None);
    assert_eq!(button_b_action(PressStep::Held), Some(ButtonBAction::Setup));
    assert_eq!(
        button_b_action(PressStep::Released),
        Some(ButtonBAction::CycleMode)
    );
    assert_eq!(button_b_action(PressStep::Settle), None);
}

#[test]
fn timers_come_round() {
    let mut timer = RefreshTimer::start(100, 50);
    assert!(!timer.due(149));
    assert!(timer.due(170));
    assert_eq!(timer.next_us, 220);
    assert_eq!(RefreshTimer::start(u64::MAX, 1).next_us, u64::MAX);
    let mut level = UsbLevel {
        timer: RefreshTimer::start(0, 10),
        last_level: None,
    };
    assert_eq!(level.to_show(9, 5), None);
    assert_eq!(level.to_show(10, 5), Some(5));
    assert_eq!(level.to_show(20, 5), None);
    assert_eq!(level.to_show(29, 6), None);
    assert_eq!(level.to_show(30, 6), Some(6));
}

#[test]
fn events_become_actions() {
    let usb = ModeCommand {
        mode: ActiveMode::Usb,
        priority: 1,
    };
    let wifi = ModeCommand {
        mode: ActiveMode::Wifi,
        priority: 1,
    };
    assert!(action_when_idle(ControlEvent::RecordStop).is_none());
    assert!(matches!(
        action_when_idle(ControlEvent::RecordStart { priority: 7 }),
        Some(IdleAction::Record {
            mode: RecordMode::Latched,
            priority: 7
        })
    ));
    assert!(matches!(
        action_when_idle(ControlEvent::SetMode(usb)),
        Some(IdleAction::SetMode(_))
    ));
    assert!(action_when_usb(ControlEvent::SetMode(usb)).is_none());
    assert!(action_when_usb(ControlEvent::RecordStart { priority: 7 }).is_none());
    assert!(matches!(
        action_when_usb(ControlEvent::SetMode(wifi)),
        Some(IdleAction::SetMode(_))
    ));
    assert!(matches!(
        action_for_button_b(ButtonBAction::Setup),
        IdleAction::Setup
    ));
    assert_eq!(transport_for(ActiveMode::Usb), TransportMode::Usb);
    assert_eq!(transport_for(ActiveMode::Bluetooth), TransportMode::Wireless);
}

#[test]
fn the_device_takes_up_actions() {
    let mut device = Device::new();
    device.cached_receiver.connected("ws://a".to_string());
    let record = |priority| IdleAction::Record {
        mode: RecordMode::Latched,
        priority,
    };
    assert!(matches!(
        device.take_up(record(CONTROL_PRIORITY_PHONE - 1)),
        MainStep::Record(RecordMode::Latched)
    ));
    assert!(device.cached_receiver.url.is_some());
    device.take_up(record(CONTROL_PRIORITY_PHONE));
    assert!(device.cached_receiver.url.is_none());

    assert!(matches!(
        device.take_up(IdleAction::SetMode(ModeCommand {
            mode: ActiveMode::Wifi,
            priority: 0
        })),
        MainStep::AlreadyActive
    ));
    assert!(matches!(device.take_up(IdleAction::CycleMode), MainStep::Activate));
    assert_eq!(device.active_mode, ActiveMode::Usb);
    assert!(matches!(device.take_up(record(0)), MainStep::Ignore));
    device.take_up(IdleAction::CycleMode);
    assert_eq!(device.active_mode, ActiveMode::Wifi);
    device.take_up(IdleAction::SetMode(ModeCommand {
        mode: ActiveMode::Bluetooth,
        priority: 0,
    }));
    assert_eq!(device.active_mode, ActiveMode::Bluetooth);
    device.take_up(IdleAction::CycleMode);
    assert_eq!(device.active_mode, ActiveMode::Usb);
    let wifi = ProvisionedWifi {
        ssid: "s".to_string(),
        password: "p".to_string(),
    };
    match device.take_up(IdleAction::ProvisionWifi(wifi)) {
        MainStep::SaveWifi(wifi) => assert_eq!(wifi.ssid, "s"),
        other => panic!("{other:?}"),
    }
    assert_eq!(device.active_mode, ActiveMode::Wifi);
    assert!(matches!(device.take_up(IdleAction::Setup), MainStep::Setup));
}

#[test]
fn a_button_stops_its_kind_of_recording() {
    let stop = Some(ControlEvent::RecordStop);
    let start = Some(ControlEvent::RecordStart {
        priority: CONTROL_PRIORITY_PHONE,
    });
    for low in [false, true] {
        assert!(stops_stream(RecordMode::Latched, true, low, &None));
        assert!(!stops_stream(RecordMode::Latched, false, low, &None));
        assert!(!stops_stream(RecordMode::Latched, false, low, &start));
        assert!(stops_stream(RecordMode::Latched, false, low, &stop));
    }
    for tapped in [false, true] {
        assert!(stops_stream(RecordMode::PushToTalk, tapped, false, &None));
        assert!(!stops_stream(RecordMode::PushToTalk, tapped, true, &start));
        assert!(stops_stream(RecordMode::PushToTalk, tapped, true, &stop));
    }
}

#[test]
fn a_frame_is_sent_only_over_a_link() {
    assert_eq!(send_step(Waited::Frame, true), SendStep::Send);
    assert_eq!(send_step(Waited::Frame, false), SendStep::Fail);
    for connected in [false, true] {
        assert_eq!(send_step(Waited::Timeout, connected), SendStep::GoOn);
        assert_eq!(
            send_step(Waited::Closed, connected),
            SendStep::End(SendEnd::CaptureEnded)
        );
    }
}
