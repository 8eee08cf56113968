use m5mic::control::{
    accepted_control_event, best_mode_command, merge_control_command, parse_control_command,
    ActiveMode, BleModeCommand, ControlAction, ControlCommand, ControlEvent, ControlLease,
    ControlMode, ModeCommand, PolledControl, CONTROL_LEASE_US, CONTROL_MODE_BLE,
    CONTROL_MODE_USB, CONTROL_MODE_WIFI, CONTROL_MODE_WIRELESS, CONTROL_PRIORITY_LEGACY,
    CONTROL_RECORD_START, CONTROL_RECORD_STOP,
};

fn command(mode: ActiveMode, priority: u8) -> ModeCommand {
    ModeCommand { mode, priority }
}

fn parsed(text: &str) -> Option<ControlCommand> {
    parse_control_command(text.as_bytes())
}

#[test]
fn every_command_is_understood() {
    for (text, action) in [
        (CONTROL_MODE_USB, ControlAction::SetMode(ControlMode::Usb)),
        (CONTROL_MODE_WIFI, ControlAction::SetMode(ControlMode::Wifi)),
        (CONTROL_MODE_WIRELESS, ControlAction::SetMode(ControlMode::Wifi)),
        (CONTROL_MODE_BLE, ControlAction::SetMode(ControlMode::Bluetooth)),
        (CONTROL_RECORD_START, ControlAction::RecordStart),
        (CONTROL_RECORD_STOP, ControlAction::RecordStop),
    ] {
        let expected = ControlCommand {
            action,
            priority: CONTROL_PRIORITY_LEGACY,
        };
        assert_eq!(parsed(text), Some(expected));
        assert_eq!(parsed(&format!("\n {text} priority=9")), Some(expected));
        let strong = ControlCommand {
            action,
            priority: 200,
        };
        assert_eq!(parsed(&format!("{text}\tpriority=200\r\n")), Some(strong));
    }
}

#[test]
fn other_commands_are_refused() {
    assert_eq!(parsed(""), None);
    assert_eq!(parsed("   "), None);
    assert_eq!(parsed("M5MIC_MODE_USB"), None);
    assert_eq!(parsed("m5mic_mode_usb_v1"), None);
    assert_eq!(parsed("priority=9 M5MIC_MODE_USB_V1"), None);
    assert_eq!(parse_control_command(b"M5MIC_MODE_USB_V1 \xff"), None);
}

#[test]
fn bluetooth_writes_are_exact() {
    assert_eq!(
        BleModeCommand::from_write(CONTROL_MODE_USB.as_bytes()),
        Some(BleModeCommand::Usb)
    );
    assert_eq!(
        BleModeCommand::from_write(CONTROL_MODE_WIFI.as_bytes()),
        Some(BleModeCommand::Wifi)
    );
    assert_eq!(
        BleModeCommand::from_write(CONTROL_MODE_WIRELESS.as_bytes()),
        Some(BleModeCommand::Wifi)
    );
    assert_eq!(
        BleModeCommand::from_write(CONTROL_MODE_BLE.as_bytes()),
        Some(BleModeCommand::Bluetooth)
    );
    assert_eq!(BleModeCommand::from_write(b"M5MIC_MODE_USB_V1 "), None);
    assert_eq!(
        BleModeCommand::from_write(CONTROL_RECORD_START.as_bytes()),
        None
    );
    for (mode, code, control) in [
        (BleModeCommand::Usb, 1, ControlMode::Usb),
        (BleModeCommand::Wifi, 2, ControlMode::Wifi),
        (BleModeCommand::Bluetooth, 3, ControlMode::Bluetooth),
    ] {
        assert_eq!(mode.to_code(), code);
        assert_eq!(BleModeCommand::from_code(code), Some(mode));
        assert_eq!(mode.control_mode(), control);
    }
    assert_eq!(BleModeCommand::from_code(0), None);
    assert_eq!(BleModeCommand::from_code(4), None);
}

#[test]
fn a_toggle_leads_from_wireless_to_usb_and_back() {
    assert_eq!(ActiveMode::Wifi.next(), ActiveMode::Usb);
    assert_eq!(ActiveMode::Bluetooth.next(), ActiveMode::Usb);
    assert_eq!(ActiveMode::Usb.next(), ActiveMode::Wifi);
    assert_eq!(ActiveMode::Wifi.label(), "Wi-Fi");
    assert_eq!(ActiveMode::Bluetooth.label(), "Bluetooth");
    assert_eq!(ActiveMode::Usb.label(), "USB");
    assert_eq!(
        ActiveMode::from_control(ControlMode::Bluetooth),
        ActiveMode::Bluetooth
    );
    assert_eq!(ActiveMode::from_control(ControlMode::Usb), ActiveMode::Usb);
    assert_eq!(ActiveMode::from_control(ControlMode::Wifi), ActiveMode::Wifi);
}

#[test]
fn a_lease_holds_off_weaker_commands() {
    let mut lease = ControlLease::default();
    assert!(lease.accepts(command(ActiveMode::Usb, 100), 1_000));
    assert_eq!(lease.priority, 100);
    assert_eq!(lease.expires_us, 1_000 + CONTROL_LEASE_US);
    assert!(!lease.accepts(command(ActiveMode::Wifi, 99), CONTROL_LEASE_US + 999));
    assert_eq!(lease.priority, 100);
    assert!(lease.accepts(command(ActiveMode::Wifi, 10), CONTROL_LEASE_US + 1_000));
    assert_eq!(lease.priority, 10);
    assert!(lease.accepts(command(ActiveMode::Wifi, 10), u64::MAX));
    assert_eq!(lease.expires_us, u64::MAX);
}

#[test]
fn the_strongest_and_latest_mode_wins() {
    let weak = command(ActiveMode::Usb, 10);
    let strong = command(ActiveMode::Wifi, 20);
    let equal = command(ActiveMode::Bluetooth, 20);
    assert_eq!(best_mode_command(None, weak), Some(weak));
    assert_eq!(best_mode_command(Some(weak), strong), Some(strong));
    assert_eq!(best_mode_command(Some(strong), weak), Some(strong));
    assert_eq!(best_mode_command(Some(strong), equal), Some(equal));
}

#[test]
fn requests_are_merged() {
    let mut requested = PolledControl::default();
    assert_eq!(requested.absorb(b"nonsense"), None);
    assert!(requested.absorb(b"M5MIC_RECORD_START_V1 priority=50").is_some());
    merge_control_command(&mut requested, ControlAction::RecordStart, 20);
    assert_eq!(requested.record_start_priority, Some(50));
    merge_control_command(
        &mut requested,
        ControlAction::SetMode(ControlMode::Usb),
        30,
    );
    assert_eq!(requested.mode, Some(command(ActiveMode::Usb, 30)));
    assert!(!requested.record_stop);
    merge_control_command(&mut requested, ControlAction::RecordStop, 0);
    assert!(requested.record_stop);
}

#[test]
fn a_stop_comes_before_a_mode_and_a_mode_before_a_start() {
    let full = || {
        let mut requested = PolledControl::default();
        requested.absorb(b"M5MIC_RECORD_START_V1 priority=50");
        requested.absorb(b"M5MIC_MODE_USB_V1 priority=50");
        requested
    };
    let mut lease = ControlLease::default();
    let mut stopping = full();
    stopping.absorb(b"M5MIC_RECORD_STOP_V1");
    assert!(matches!(
        accepted_control_event(stopping, &mut lease, 5),
        Some(ControlEvent::RecordStop)
    ));
    assert_eq!(lease.priority, 0);
    match accepted_control_event(full(), &mut lease, 5) {
        Some(ControlEvent::SetMode(accepted)) => {
            assert_eq!(accepted, command(ActiveMode::Usb, 50));
        }
        other => panic!("{other:?}"),
    }
    lease.priority = 60;
    assert!(matches!(
        accepted_control_event(full(), &mut lease, 6),
        Some(ControlEvent::RecordStart { priority: 50 })
    ));
    assert!(accepted_control_event(PolledControl::default(), &mut lease, 7).is_none());
}
