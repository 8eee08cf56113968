use m5mic::ble_receiver::{
    ble_numbers, find_characteristic, is_m5mic, link_start, link_step, scan_goes_on, switch_ends,
    BleReceiverStatus, BleSession, Characteristic, LinkAction, LinkEvent, LinkStep, Purpose,
};
use m5mic::control::parse_control_command;
use m5mic::fragment::fragment_frame;
use m5mic::frame::{AudioFrameHeader, Codec, ProtocolError, FLAG_STREAM_END, FLAG_STREAM_START};
use m5mic::json::ssid_in_profile;
use m5mic::menu::{AppAction, AppEvent, DriverInstallResult, MenuApp, WifiProvisionResult};
use m5mic::networks::{
    clean_wifi_ssid, current_wifi_ssid_networksetup, current_wifi_ssid_system_profiler,
    find_m5mic_input, ipv4_broadcast, mode_control_targets, password_from_bytes,
    wifi_hardware_device, AudioDevice, Interface, TRANSPORT_TYPE_USB, TRANSPORT_TYPE_VIRTUAL,
};
use m5mic::prompts::{
    applescript_string, choose_prompt, code_answer, current_wifi_password_script,
    current_wifi_script, driver_install_script, failure_message, install_command, manual_answer,
    manual_wifi_script, password_answer, prompt_failure, shell_quote, AnswerError,
    PromptFailure, ProvisionPrompt,
};
use m5mic::receiver::ReceiverStatus;
use m5mic::statusbar::{
    bluetooth_status_text, combined_status_text, driver_status, icon_for_combined_status,
    menu_command, menu_line, status_text, sync_driver_menu, usb_item_change, usb_status,
    usb_status_text, DotIcon, DriverInstall, DriverMenu, DriverStatus, InputMode, MenuCommand,
    RecordingCommand, UsbStatus,
};

fn ip(a: u8, b: u8, c: u8, d: u8) -> u32 {
    u32::from_be_bytes([a, b, c, d])
}

fn device(id: u32, name: &str, transport: u32) -> AudioDevice {
    AudioDevice {
        id,
        name: name.to_string(),
        transport,
    }
}

fn characteristic(uuid: u128, flags: &str) -> Characteristic {
    Characteristic {
        uuid,
        notify: flags.contains('n'),
        read: flags.contains('r'),
        write: flags.contains('w'),
        write_without_response: flags.contains('o'),
    }
}

fn audio_frame(sequence: u32, stream_id: u32, flags: u16, payload: &[u8]) -> Vec<u8> {
    let header = AudioFrameHeader::new(
        Codec::PcmS16Le,
        1,
        16_000,
        sequence,
        0,
        payload.len() as u16,
        stream_id,
        flags,
    );
    let mut frame = header.to_bytes();
    frame.extend_from_slice(payload);
    frame
}

#[test]
fn status_is_put_into_words() {
    assert_eq!(status_text(&ReceiverStatus::Waiting), "waiting");
    assert_eq!(
        status_text(&ReceiverStatus::Receiving { stream_id: 0xbeef }),
        "recording 0000beef"
    );
    assert_eq!(
        status_text(&ReceiverStatus::Error("no port".to_string())),
        "error: no port"
    );
    assert_eq!(bluetooth_status_text(&BleReceiverStatus::Disabled), "off");
    let receiving = BleReceiverStatus::Receiving { stream_id: 1 };
    assert_eq!(
        combined_status_text(&ReceiverStatus::Connected, &receiving),
        "Bluetooth recording 00000001"
    );
    assert_eq!(
        combined_status_text(&ReceiverStatus::Connected, &BleReceiverStatus::Connected),
        "connected"
    );
    assert_eq!(menu_line("Status", "waiting"), "Status: waiting");
}

#[test]
fn the_icon_shows_recording_before_trouble() {
    let failed = BleReceiverStatus::Error(String::new());
    let receiving = ReceiverStatus::Receiving { stream_id: 1 };
    assert_eq!(icon_for_combined_status(&receiving, &failed), DotIcon::Recording);
    assert_eq!(
        icon_for_combined_status(
            &ReceiverStatus::Error(String::new()),
            &BleReceiverStatus::Receiving { stream_id: 1 }
        ),
        DotIcon::Recording
    );
    assert_eq!(
        icon_for_combined_status(&ReceiverStatus::Waiting, &failed),
        DotIcon::Error
    );
    assert_eq!(
        icon_for_combined_status(&ReceiverStatus::Waiting, &BleReceiverStatus::Scanning),
        DotIcon::Idle
    );
}

#[test]
fn usb_and_driver_are_reported() {
    assert_eq!(usb_status(Some(true)), UsbStatus::Connected);
    assert_eq!(usb_status(Some(false)), UsbStatus::Disconnected);
    assert_eq!(usb_status(None), UsbStatus::Unknown);
    assert_eq!(usb_status_text(UsbStatus::Disconnected), "not connected");
    assert_eq!(usb_item_change(UsbStatus::Connected, false), Some(true));
    assert_eq!(usb_item_change(UsbStatus::Connected, true), None);
    assert_eq!(usb_item_change(UsbStatus::Unknown, true), Some(false));
    assert_eq!(driver_status(true, false), DriverStatus::Installed);
    assert_eq!(driver_status(false, true), DriverStatus::Missing);
    assert_eq!(driver_status(false, false), DriverStatus::Unavailable);
    let menu = sync_driver_menu(DriverStatus::Missing, false);
    assert_eq!(
        (menu.status, menu.item, menu.enabled),
        ("Driver: install required", "Install Audio Driver...", true)
    );
    let menu = sync_driver_menu(DriverStatus::Missing, true);
    assert_eq!(
        (menu.status, menu.item, menu.enabled),
        ("Driver: installing", "Installing Audio Driver...", false)
    );
    assert_eq!(
        sync_driver_menu(DriverStatus::Unavailable, false).status,
        "Driver: bundled copy missing"
    );
}

#[test]
fn the_driver_is_asked_for_once() {
    let mut install = DriverInstall {
        status: DriverStatus::Installed,
        running: false,
        prompted: false,
    };
    assert!(!install.on_status(DriverStatus::Unavailable));
    assert!(install.on_status(DriverStatus::Missing));
    assert!(install.running && install.prompted);
    assert!(!install.on_chosen());
    install.on_result(DriverStatus::Missing);
    assert!(!install.running);
    assert!(!install.on_status(DriverStatus::Missing));
    assert!(install.on_chosen());
}

#[test]
fn menu_items_send_commands() {
    assert!(matches!(menu_command("quit"), Some(MenuCommand::Quit)));
    assert!(matches!(
        menu_command("mode-bluetooth"),
        Some(MenuCommand::SetMode(InputMode::Bluetooth))
    ));
    assert!(matches!(
        menu_command("record-stop"),
        Some(MenuCommand::Record(RecordingCommand::Stop))
    ));
    assert!(matches!(
        menu_command("install-driver"),
        Some(MenuCommand::InstallDriver)
    ));
    assert!(menu_command("nothing").is_none());
    assert_eq!(InputMode::Bluetooth.payload(), "M5MIC_MODE_BLE_V1");
    assert_eq!(InputMode::Usb.device_transport(), TRANSPORT_TYPE_USB);
    assert_eq!(InputMode::Wifi.device_transport(), TRANSPORT_TYPE_VIRTUAL);
    assert!(InputMode::Bluetooth.listens_for_bluetooth());
    assert!(!InputMode::Usb.listens_for_bluetooth());
    assert_eq!(InputMode::Wifi.result_line(true), "Status: Wi-Fi mode selected");
    assert_eq!(InputMode::Usb.result_line(false), "Status: USB mode failed");
    assert_eq!(
        InputMode::Usb.missing_device_message(),
        "m5mic USB input is not available"
    );
    assert_eq!(RecordingCommand::Start.payload(), "M5MIC_RECORD_START_V1");
    assert_eq!(
        RecordingCommand::Start.result_line(true),
        "Status: start recording sent"
    );
    assert_eq!(
        RecordingCommand::Stop.result_line(false),
        "Status: stop recording failed"
    );
}

#[test]
fn scripts_quote_their_texts() {
    assert_eq!(applescript_string("a\\b\"c"), "\"a\\\\b\\\"c\"");
    assert_eq!(shell_quote("it's"), "'it'\\''s'");
    assert_eq!(
        install_command("/Apps/m5mic.driver"),
        "/bin/mkdir -p '/Library/Audio/Plug-Ins/HAL' \
         && /bin/rm -rf '/Library/Audio/Plug-Ins/HAL/m5mic.driver' \
         && /bin/cp -R '/Apps/m5mic.driver' '/Library/Audio/Plug-Ins/HAL/m5mic.driver' \
         && /usr/sbin/chown -R root:wheel '/Library/Audio/Plug-Ins/HAL/m5mic.driver' \
         && (/usr/bin/killall coreaudiod >/dev/null 2>&1 || true)"
    );
    let script = driver_install_script("/a'b");
    assert!(script.starts_with("set buttonChoice to button returned of (display dialog \"m5mic needs"));
    assert!(script.contains("/bin/cp -R '/a'\\\\''b' "));
    assert!(script.ends_with(" with administrator privileges\nend if"));
    assert_eq!(
        current_wifi_script("my \"net\""),
        "set codeResult to text returned of (display dialog \"Share this Mac's current Wi-Fi \
         network (my \\\"net\\\") with the M5StickS3.\n\nPut the Stick in setup mode, then enter \
         the large 8-digit code shown on its screen:\" with title \"m5mic Bluetooth Wi-Fi Setup\" \
         default answer \"\")\nreturn codeResult"
    );
    assert!(current_wifi_password_script("net")
        .ends_with("\nreturn passResult & linefeed & codeResult"));
    assert!(manual_wifi_script("Which?", "home").contains("default answer \"home\")"));
}

#[test]
fn answers_are_read_line_by_line() {
    let request = code_answer("net", "pw", b" 1234 5678\n").unwrap();
    assert_eq!(request.ssid, "net");
    assert_eq!(request.password, "pw");
    assert_eq!(request.setup_code, "1234 5678");
    assert!(code_answer("net", "pw", &[0xff]).is_none());
    let request = password_answer("net", b" pw \n 12345678 \n\n").unwrap();
    assert_eq!(request.password, " pw ");
    assert_eq!(request.setup_code, "12345678");
    let request = password_answer("net", b"pw").unwrap();
    assert_eq!(request.setup_code, "");
    let request = manual_answer(b" home \npw\n1\n2\n").unwrap();
    assert_eq!(request.ssid, "home");
    assert_eq!(request.password, "pw");
    assert_eq!(request.setup_code, "1\n2");
    assert!(matches!(manual_answer(b" \npw\n1"), Err(AnswerError::SsidMissing)));
    assert!(matches!(manual_answer(&[0xff]), Err(AnswerError::NotText)));
}

#[test]
fn a_prompt_that_fails_says_why() {
    let canceled = |stderr: &str, several: bool| {
        matches!(
            prompt_failure(stderr, "exit status: 1", several),
            PromptFailure::Canceled
        )
    };
    assert!(canceled("execution error: User canceled. (-128)", false));
    assert!(!canceled("execution error (-128)", false));
    assert!(canceled("execution error (-128)", true));
    match prompt_failure("  broken \n", "exit status: 1", true) {
        PromptFailure::Failed(message) => assert_eq!(message, "broken"),
        other => panic!("{other:?}"),
    }
    assert_eq!(
        failure_message(" \n", "exit status: 1"),
        "osascript exited with exit status: 1"
    );
    assert_eq!(choose_prompt(true, true), ProvisionPrompt::Code);
    assert_eq!(choose_prompt(true, false), ProvisionPrompt::Password);
    assert_eq!(choose_prompt(false, true), ProvisionPrompt::Manual);
}

#[test]
fn the_current_network_is_found() {
    assert_eq!(clean_wifi_ssid("  home "), Some("home".to_string()));
    assert_eq!(clean_wifi_ssid("  "), None);
    assert_eq!(
        clean_wifi_ssid("you are NOT associated with an airport network."),
        None
    );
    assert_eq!(
        current_wifi_ssid_networksetup("Current Wi-Fi Network: my: net\n"),
        Some("my: net".to_string())
    );
    assert_eq!(current_wifi_ssid_networksetup("nothing"), None);
    let ports = "Hardware Port: Ethernet\nDevice: en5\n\nHardware Port: Wi-Fi\r\nEthernet Address: x\nDevice:  en1 \nDevice: en2\n";
    assert_eq!(wifi_hardware_device(ports), Some("en1".to_string()));
    assert_eq!(
        wifi_hardware_device("Hardware Port: Ethernet\nDevice: en5\n"),
        None
    );
    assert_eq!(
        password_from_bytes(b"p w\r\n\n"),
        Some("p w".to_string())
    );
    assert_eq!(password_from_bytes(&[0xff]), None);
}

#[test]
fn the_current_network_is_found_in_a_profile() {
    let profile = br#"{"SPAirPortDataType": [
        {"other": 1, "interfaces": [
            {"spairport_current_network_information": {"_name": 5}},
            {"spairport_current_network_information": {"_name": " home "}}
        ]}
    ]}"#;
    assert_eq!(ssid_in_profile(profile), Some(" home ".to_string()));
    assert_eq!(
        current_wifi_ssid_system_profiler(profile),
        Some("home".to_string())
    );
    let outer = br#"{"a": {"spairport_current_network_information": {"_name": "inner"}},
        "spairport_current_network_information": {"_name": "outer"}}"#;
    assert_eq!(ssid_in_profile(outer), Some("outer".to_string()));
    assert_eq!(ssid_in_profile(b"[1, \"_name\", null]"), None);
    assert_eq!(ssid_in_profile(b"{"), None);
}

#[test]
fn devices_are_found_by_name_and_transport() {
    let devices = vec![
        device(1, "MacBook Microphone", TRANSPORT_TYPE_USB),
        device(2, "The M5Mic", TRANSPORT_TYPE_VIRTUAL),
        device(3, "m5mic", TRANSPORT_TYPE_USB),
        device(4, "m5mic", TRANSPORT_TYPE_USB),
    ];
    assert_eq!(find_m5mic_input(&devices, TRANSPORT_TYPE_USB), Some(3));
    assert_eq!(find_m5mic_input(&devices, TRANSPORT_TYPE_VIRTUAL), Some(2));
    assert_eq!(find_m5mic_input(&devices, 0), None);
    assert_eq!(TRANSPORT_TYPE_USB.to_be_bytes(), *b"usb ");
}

#[test]
fn commands_go_to_every_network() {
    assert_eq!(
        ipv4_broadcast(ip(192, 168, 1, 7), ip(255, 255, 255, 0)),
        ip(192, 168, 1, 255)
    );
    let interface = |loopback, address, broadcast| Interface {
        loopback,
        ip: address,
        netmask: ip(255, 255, 255, 0),
        broadcast,
    };
    let interfaces = vec![
        interface(true, ip(127, 0, 0, 1), None),
        interface(false, ip(192, 168, 1, 7), Some(ip(192, 168, 1, 255))),
        interface(false, ip(10, 0, 0, 7), Some(ip(10, 255, 255, 255))),
    ];
    assert_eq!(
        mode_control_targets(&interfaces),
        [
            ip(10, 0, 0, 255),
            ip(10, 255, 255, 255),
            ip(192, 168, 1, 255),
            ip(255, 255, 255, 255)
        ]
    );
    assert_eq!(mode_control_targets(&vec![]), [ip(255, 255, 255, 255)]);
}

#[test]
fn bluetooth_numbers_are_read() {
    let numbers = ble_numbers().unwrap();
    assert_eq!(numbers.service, 0x6d356d69_6321_4d35_8000_000000000001);
    assert_eq!(numbers.audio, 0x6d356d69_6321_4d35_8000_000000000002);
    assert_eq!(numbers.control, 0x6d356d69_6321_4d35_8000_000000000003);
    assert_eq!(numbers.provision, 0x6d356d69_6321_4d35_8000_000000000005);
}

#[test]
fn characteristics_must_be_usable() {
    let found = vec![
        characteristic(7, "r"),
        characteristic(8, "n"),
        characteristic(7, "n"),
        characteristic(7, "rw"),
        characteristic(9, "o"),
    ];
    assert_eq!(find_characteristic(&found, Purpose::Audio, 7), Some(2));
    assert_eq!(find_characteristic(&found, Purpose::Control, 7), Some(3));
    assert_eq!(find_characteristic(&found, Purpose::Control, 9), Some(4));
    assert_eq!(find_characteristic(&found, Purpose::Provision, 7), Some(3));
    assert_eq!(find_characteristic(&found, Purpose::Provision, 9), None);
    assert!(is_m5mic(true, None));
    assert!(is_m5mic(false, Some("M5MIC")));
    assert!(!is_m5mic(false, Some("m5mic 2")));
    assert!(scan_goes_on(19, None));
    assert!(!scan_goes_on(20, None));
    assert!(!scan_goes_on(0, Some(false)));
    assert!(switch_ends(true, true));
    assert!(switch_ends(false, false));
    assert!(!switch_ends(false, true));
}

#[test]
fn a_bluetooth_session_plays_frames() {
    let payload: Vec<u8> = (0..200u8).collect();
    let mut session = BleSession::new();
    let fragments = fragment_frame(0, &audio_frame(0, 5, FLAG_STREAM_START, &payload)).unwrap();
    assert!(session.on_notification(&fragments[0]).unwrap().is_none());
    let step = session.on_notification(&fragments[1]).unwrap().unwrap();
    assert_eq!(step.status, BleReceiverStatus::Receiving { stream_id: 5 });
    assert_eq!(step.pcm, Some(payload));
    assert!(!step.ended);
    let end = fragment_frame(1, &audio_frame(1, 5, FLAG_STREAM_END, &[])).unwrap();
    let step = session.on_notification(&end[0]).unwrap().unwrap();
    assert_eq!(step.status, BleReceiverStatus::Connected);
    assert_eq!(step.pcm, None);
    assert!(step.ended);
    assert_eq!(
        session.on_notification(&[1]).unwrap_err(),
        ProtocolError::FrameTooShort
    );
    let junk = fragment_frame(2, &[9; 40]).unwrap();
    assert_eq!(
        session.on_notification(&junk[0]).unwrap_err(),
        ProtocolError::BadMagic
    );
}

#[test]
fn the_app_reacts_to_events() {
    let (mut app, first) = MenuApp::start(DriverStatus::Missing, UsbStatus::Disconnected);
    assert!(matches!(
        &first[..],
        [
            AppAction::ShowDriver(DriverMenu { enabled: true, .. }),
            AppAction::ShowStatus(_),
            AppAction::ShowDriver(DriverMenu { enabled: false, .. }),
            AppAction::AskForDriver
        ]
    ));
    assert!(matches!(
        &app.on_event(AppEvent::Chosen(MenuCommand::InstallDriver))[..],
        []
    ));
    match &app.on_event(AppEvent::DriverInstall {
        result: DriverInstallResult::Skipped,
        status: DriverStatus::Missing,
    })[..]
    {
        [AppAction::ShowStatus(line), AppAction::ShowDriver(menu)] => {
            assert_eq!(line, "Status: audio driver not installed");
            assert!(menu.enabled);
        }
        other => panic!("{other:?}"),
    }
    assert_eq!(app.on_event(AppEvent::Driver(DriverStatus::Missing)).len(), 1);

    match &app.on_event(AppEvent::Bluetooth(BleReceiverStatus::Receiving { stream_id: 2 }))[..] {
        [AppAction::ShowBluetooth(line), AppAction::ShowStatus(status), AppAction::ShowTray { tooltip, icon }] =>
        {
            assert_eq!(line, "Bluetooth: recording 00000002");
            assert_eq!(status, "Status: Bluetooth recording 00000002");
            assert_eq!(tooltip, "m5mic: Bluetooth recording 00000002");
            assert_eq!(*icon, DotIcon::Recording);
        }
        other => panic!("{other:?}"),
    }

    match &app.on_event(AppEvent::Usb(UsbStatus::Connected))[..] {
        [AppAction::ShowUsb(line), AppAction::ShowUsbItem(true)] => {
            assert_eq!(line, "USB: connected");
        }
        other => panic!("{other:?}"),
    }
    app.on_event(AppEvent::UsbItemShown(true));
    assert_eq!(app.on_event(AppEvent::Usb(UsbStatus::Connected)).len(), 1);

    match &app.on_event(AppEvent::Chosen(MenuCommand::SetMode(InputMode::Bluetooth)))[..] {
        [AppAction::Listen(true), AppAction::SwitchMode(InputMode::Bluetooth), AppAction::SendOverBluetooth(payload)] =>
        {
            assert_eq!(*payload, "M5MIC_MODE_BLE_V1");
            assert!(parse_control_command(payload.as_bytes()).is_some());
        }
        other => panic!("{other:?}"),
    }
    match &app.on_event(AppEvent::WifiProvision(WifiProvisionResult::Failed(String::new())))[..] {
        [AppAction::ShowStatus(line)] => {
            assert_eq!(line, "Status: Bluetooth Wi-Fi setup failed");
        }
        other => panic!("{other:?}"),
    }
    assert!(matches!(
        &app.on_event(AppEvent::Chosen(MenuCommand::Quit))[..],
        [AppAction::Quit]
    ));
}

fn follow(
    mut step: LinkStep,
    events: Vec<(LinkEvent, bool)>,
) -> Vec<(Option<BleReceiverStatus>, LinkAction)> {
    let mut steps = Vec::new();
    for (event, enabled) in events {
        let next = link_step(step.action, event, enabled);
        steps.push((step.status, step.action));
        step = next;
    }
    steps.push((step.status, step.action));
    steps
}

#[test]
fn a_bluetooth_link_announces_how_far_it_is() {
    let heard = BleReceiverStatus::Receiving { stream_id: 4 };
    let steps = follow(
        link_start(false),
        vec![
            (LinkEvent::Done, true),
            (LinkEvent::Done, true),
            (LinkEvent::Done, true),
            (LinkEvent::Done, true),
            (LinkEvent::Done, true),
            (LinkEvent::Done, true),
            (LinkEvent::Done, true),
            (LinkEvent::Heard(heard.clone()), true),
            (LinkEvent::Gone, false),
            (LinkEvent::Done, false),
            (LinkEvent::Gone, false),
            (LinkEvent::Failed("late".to_string()), true),
        ],
    );
    assert_eq!(
        steps,
        vec![
            (Some(BleReceiverStatus::Disabled), LinkAction::AwaitSwitch),
            (None, LinkAction::Prepare),
            (Some(BleReceiverStatus::Scanning), LinkAction::Scan),
            (Some(BleReceiverStatus::Connecting), LinkAction::Connect),
            (None, LinkAction::Subscribe),
            (Some(BleReceiverStatus::Connected), LinkAction::OpenFeed),
            (None, LinkAction::Listen),
            (None, LinkAction::Listen),
            (Some(heard), LinkAction::Listen),
            (None, LinkAction::Disconnect),
            (Some(BleReceiverStatus::Disabled), LinkAction::AwaitSwitch),
            (None, LinkAction::Stop),
            (None, LinkAction::Stop),
        ]
    );
}

#[test]
fn a_bluetooth_link_comes_back() {
    let failed = || LinkEvent::Failed("gone".to_string());
    let error = Some(BleReceiverStatus::Error("gone".to_string()));
    let steps = follow(
        link_start(true),
        vec![
            (LinkEvent::Done, true),
            (LinkEvent::Gone, true),
            (failed(), true),
            (LinkEvent::Done, true),
            (LinkEvent::Done, true),
            (LinkEvent::Done, true),
            (LinkEvent::Done, false),
            (LinkEvent::Done, true),
            (failed(), false),
            (LinkEvent::Done, false),
        ],
    );
    assert_eq!(
        steps,
        vec![
            (None, LinkAction::Prepare),
            (Some(BleReceiverStatus::Scanning), LinkAction::Scan),
            (Some(BleReceiverStatus::Disabled), LinkAction::Prepare),
            (error.clone(), LinkAction::Rest),
            (None, LinkAction::Prepare),
            (Some(BleReceiverStatus::Scanning), LinkAction::Scan),
            (Some(BleReceiverStatus::Connecting), LinkAction::Connect),
            (None, LinkAction::Abandon),
            (Some(BleReceiverStatus::Disabled), LinkAction::Prepare),
            (error, LinkAction::Rest),
            (Some(BleReceiverStatus::Disabled), LinkAction::AwaitSwitch),
        ]
    );
    let lost = link_step(LinkAction::Disconnect, LinkEvent::Done, true);
    assert_eq!((lost.status, lost.action), (None, LinkAction::Prepare));
}
