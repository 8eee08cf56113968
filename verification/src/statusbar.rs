//! The menu of the status-bar app: its texts, its icon, and what its items do.

use vstd::prelude::*;
use vstd::string::*;

use crate::ble_receiver::BleReceiverStatus;
use crate::control::{
    CONTROL_MODE_BLE, CONTROL_MODE_USB, CONTROL_MODE_WIFI, CONTROL_RECORD_START,
    CONTROL_RECORD_STOP,
};
use crate::networks::{TRANSPORT_TYPE_USB, TRANSPORT_TYPE_VIRTUAL};
use crate::receiver::ReceiverStatus;
use crate::text::{
    hex, is_capital_of, law_case_is_ignored, push_hex, same_ignoring_case, text_equal,
};

verus! {

/// How often a command is sent.
pub const CONTROL_ROUNDS: usize = 8;

/// What the menu says of the receiver.
pub open spec fn receiver_text(status: ReceiverStatus) -> Seq<char> {
    match status {
        ReceiverStatus::Starting => "starting"@,
        ReceiverStatus::Waiting => "waiting"@,
        ReceiverStatus::Connected => "connected"@,
        ReceiverStatus::Receiving { stream_id } => "recording "@ + hex(stream_id as nat, 8),
        ReceiverStatus::Stopped => "stopped"@,
        ReceiverStatus::Error(err) => "error: "@ + err@,
    }
}

pub fn status_text(status: &ReceiverStatus) -> (text: String)
    ensures
        text@ == receiver_text(*status),
{
    match status {
        ReceiverStatus::Starting => "starting".to_owned(),
        ReceiverStatus::Waiting => "waiting".to_owned(),
        ReceiverStatus::Connected => "connected".to_owned(),
        ReceiverStatus::Receiving { stream_id } => {
            let mut text = "recording ".to_owned();
            push_hex(&mut text, *stream_id as u64, 8);
            text
        },
        ReceiverStatus::Stopped => "stopped".to_owned(),
        ReceiverStatus::Error(err) => {
            let mut text = "error: ".to_owned();
            text.push_str(err.as_str());
            text
        },
    }
}

/// What the menu says of Bluetooth.
pub open spec fn bluetooth_text(status: BleReceiverStatus) -> Seq<char> {
    match status {
        BleReceiverStatus::Disabled => "off"@,
        BleReceiverStatus::Scanning => "scanning"@,
        BleReceiverStatus::Connecting => "connecting"@,
        BleReceiverStatus::Connected => "connected"@,
        BleReceiverStatus::Receiving { stream_id } => "recording "@ + hex(stream_id as nat, 8),
        BleReceiverStatus::Error(err) => "error: "@ + err@,
    }
}

pub fn bluetooth_status_text(status: &BleReceiverStatus) -> (text: String)
    ensures
        text@ == bluetooth_text(*status),
{
    match status {
        BleReceiverStatus::Disabled => "off".to_owned(),
        BleReceiverStatus::Scanning => "scanning".to_owned(),
        BleReceiverStatus::Connecting => "connecting".to_owned(),
        BleReceiverStatus::Connected => "connected".to_owned(),
        BleReceiverStatus::Receiving { stream_id } => {
            let mut text = "recording ".to_owned();
            push_hex(&mut text, *stream_id as u64, 8);
            text
        },
        BleReceiverStatus::Error(err) => {
            let mut text = "error: ".to_owned();
            text.push_str(err.as_str());
            text
        },
    }
}

/// What the menu says of both: a recording over Bluetooth comes before anything
/// that the receiver does.
pub open spec fn combined_text(receiver: ReceiverStatus, ble: BleReceiverStatus) -> Seq<char> {
    if ble is Receiving {
        "Bluetooth "@ + bluetooth_text(ble)
    } else {
        receiver_text(receiver)
    }
}

pub fn combined_status_text(receiver: &ReceiverStatus, ble: &BleReceiverStatus) -> (text: String)
    ensures
        text@ == combined_text(*receiver, *ble),
{
    match ble {
        BleReceiverStatus::Receiving { .. } => {
            let mut text = "Bluetooth ".to_owned();
            let status = bluetooth_status_text(ble);
            text.push_str(status.as_str());
            text
        },
        _ => status_text(receiver),
    }
}

/// A line of the menu: a label, a colon, and what it says.
pub fn menu_line(label: &str, text: &str) -> (line: String)
    ensures
        line@ == label@ + ": "@ + text@,
{
    let mut line = label.to_owned();
    line.push_str(": ");
    line.push_str(text);
    line
}

/// The icon of the app.
#[derive(Debug, Clone, Copy, PartialEq, Eq, Structural)]
pub enum DotIcon {
    Idle,
    Recording,
    Error,
}

/// The icon for both statuses: a recording comes before an error.
pub open spec fn combined_icon(receiver: ReceiverStatus, ble: BleReceiverStatus) -> DotIcon {
    if receiver is Receiving || ble is Receiving {
        DotIcon::Recording
    } else if receiver is Error || ble is Error {
        DotIcon::Error
    } else {
        DotIcon::Idle
    }
}

pub fn icon_for_combined_status(receiver: &ReceiverStatus, ble: &BleReceiverStatus) -> (icon:
    DotIcon)
    ensures
        icon == combined_icon(*receiver, *ble),
{
    match (receiver, ble) {
        (ReceiverStatus::Receiving { .. }, _) => DotIcon::Recording,
        (_, BleReceiverStatus::Receiving { .. }) => DotIcon::Recording,
        (ReceiverStatus::Error(_), _) => DotIcon::Error,
        (_, BleReceiverStatus::Error(_)) => DotIcon::Error,
        _ => DotIcon::Idle,
    }
}

#[derive(Debug, Clone, Copy, PartialEq, Eq, Structural)]
pub enum UsbStatus {
    Connected,
    Disconnected,
    Unknown,
}

/// What is known of the microphone on USB; `connected` is nothing where the
/// devices could not be read.
pub fn usb_status(connected: Option<bool>) -> (status: UsbStatus)
    ensures
        status == match connected {
            Some(true) => UsbStatus::Connected,
            Some(false) => UsbStatus::Disconnected,
            None => UsbStatus::Unknown,
        },
{
    match connected {
        Some(connected) => if connected {
            UsbStatus::Connected
        } else {
            UsbStatus::Disconnected
        },
        None => UsbStatus::Unknown,
    }
}

/// What the menu says of USB.
pub open spec fn usb_text(status: UsbStatus) -> &'static str {
    match status {
        UsbStatus::Connected => "connected",
        UsbStatus::Disconnected => "not connected",
        UsbStatus::Unknown => "unknown",
    }
}

pub fn usb_status_text(status: UsbStatus) -> (text: &'static str)
    ensures
        text == usb_text(status),
{
    match status {
        UsbStatus::Connected => "connected",
        UsbStatus::Disconnected => "not connected",
        UsbStatus::Unknown => "unknown",
    }
}

/// How the item for USB mode changes: it is shown exactly while the microphone is
/// connected. Nothing means that it stays as it is.
pub fn usb_item_change(status: UsbStatus, visible: bool) -> (show: Option<bool>)
    ensures
        show == if (status == UsbStatus::Connected) == visible {
            None
        } else {
            Some(!visible)
        },
{
    let should_show = match status {
        UsbStatus::Connected => true,
        _ => false,
    };
    if should_show == visible {
        None
    } else {
        Some(should_show)
    }
}

#[derive(Debug, Clone, Copy, PartialEq, Eq, Structural)]
pub enum DriverStatus {
    Installed,
    Missing,
    Unavailable,
}

/// The driver's status, by whether it and a copy to install it from are there.
pub open spec fn status_of_driver(installed: bool, bundled: bool) -> DriverStatus {
    if installed {
        DriverStatus::Installed
    } else if bundled {
        DriverStatus::Missing
    } else {
        DriverStatus::Unavailable
    }
}

pub fn driver_status(installed: bool, bundled: bool) -> (status: DriverStatus)
    ensures
        status == status_of_driver(installed, bundled),
{
    if installed {
        DriverStatus::Installed
    } else if bundled {
        DriverStatus::Missing
    } else {
        DriverStatus::Unavailable
    }
}

/// What the menu says of the driver.
#[derive(Debug, Clone, Copy)]
pub struct DriverMenu {
    pub status: &'static str,
    pub item: &'static str,
    pub enabled: bool,
}

pub open spec fn driver_menu_of(status: DriverStatus, install_running: bool) -> DriverMenu {
    if install_running {
        DriverMenu {
            status: "Driver: installing",
            item: "Installing Audio Driver...",
            enabled: false,
        }
    } else {
        match status {
            DriverStatus::Installed => DriverMenu {
                status: "Driver: installed",
                item: "Audio Driver Installed",
                enabled: false,
            },
            DriverStatus::Missing => DriverMenu {
                status: "Driver: install required",
                item: "Install Audio Driver...",
                enabled: true,
            },
            DriverStatus::Unavailable => DriverMenu {
                status: "Driver: bundled copy missing",
                item: "Audio Driver Unavailable",
                enabled: false,
            },
        }
    }
}

pub fn sync_driver_menu(status: DriverStatus, install_running: bool) -> (menu: DriverMenu)
    ensures
        menu == driver_menu_of(status, install_running),
{
    if install_running {
        return DriverMenu {
            status: "Driver: installing",
            item: "Installing Audio Driver...",
            enabled: false,
        };
    }
    match status {
        DriverStatus::Installed => DriverMenu {
            status: "Driver: installed",
            item: "Audio Driver Installed",
            enabled: false,
        },
        DriverStatus::Missing => DriverMenu {
            status: "Driver: install required",
            item: "Install Audio Driver...",
            enabled: true,
        },
        DriverStatus::Unavailable => DriverMenu {
            status: "Driver: bundled copy missing",
            item: "Audio Driver Unavailable",
            enabled: false,
        },
    }
}

/// How far the installation of the driver has come.
#[derive(Debug, Clone, Copy, PartialEq, Eq, Structural)]
pub struct DriverInstall {
    pub status: DriverStatus,
    pub running: bool,
    pub prompted: bool,
}

impl DriverInstall {
    /// The driver's status has been looked at. The first time that the driver is
    /// missing, the user is asked to install it.
    pub fn on_status(&mut self, status: DriverStatus) -> (ask: bool)
        ensures
            ask == (!old(self).prompted && status == DriverStatus::Missing),
            *final(self) == if ask {
                (DriverInstall { status, running: true, prompted: true })
            } else {
                (DriverInstall { status, ..*old(self) })
            },
    {
        self.status = status;
        let missing = match status {
            DriverStatus::Missing => true,
            _ => false,
        };
        if !self.prompted && missing {
            self.running = true;
            self.prompted = true;
            true
        } else {
            false
        }
    }

    /// The installation is over.
    pub fn on_result(&mut self, status: DriverStatus)
        ensures
            *final(self) == (DriverInstall { status, running: false, ..*old(self) }),
    {
        self.running = false;
        self.status = status;
    }

    /// The item was chosen: the installation begins unless it is under way.
    pub fn on_chosen(&mut self) -> (begin: bool)
        ensures
            begin == !old(self).running,
            *final(self) == (DriverInstall { running: true, ..*old(self) }),
    {
        if self.running {
            return false;
        }
        self.running = true;
        true
    }
}

/// What the microphone sends its audio over, as the user chooses it.
#[derive(Debug, Clone, Copy, PartialEq, Eq, Structural)]
pub enum InputMode {
    Wifi,
    Bluetooth,
    Usb,
}

impl InputMode {
    pub open spec fn label(self) -> &'static str {
        match self {
            InputMode::Wifi => "Wi-Fi",
            InputMode::Bluetooth => "Bluetooth",
            InputMode::Usb => "USB",
        }
    }

    pub fn menu_label(self) -> (label: &'static str)
        ensures
            label == self.label(),
    {
        match self {
            InputMode::Wifi => "Wi-Fi",
            InputMode::Bluetooth => "Bluetooth",
            InputMode::Usb => "USB",
        }
    }

    /// The command that switches the microphone over.
    pub open spec fn command(self) -> &'static str {
        match self {
            InputMode::Wifi => CONTROL_MODE_WIFI,
            InputMode::Bluetooth => CONTROL_MODE_BLE,
            InputMode::Usb => CONTROL_MODE_USB,
        }
    }

    pub fn payload(self) -> (payload: &'static str)
        ensures
            payload == self.command(),
    {
        match self {
            InputMode::Wifi => CONTROL_MODE_WIFI,
            InputMode::Bluetooth => CONTROL_MODE_BLE,
            InputMode::Usb => CONTROL_MODE_USB,
        }
    }

    /// The transport of the Mac's audio device: what comes in wirelessly is fed to
    /// the virtual one.
    pub fn device_transport(self) -> (transport: u32)
        ensures
            transport == match self {
                InputMode::Usb => TRANSPORT_TYPE_USB,
                _ => TRANSPORT_TYPE_VIRTUAL,
            },
    {
        match self {
            InputMode::Usb => TRANSPORT_TYPE_USB,
            _ => TRANSPORT_TYPE_VIRTUAL,
        }
    }

    /// Whether the Mac listens for Bluetooth in this mode.
    pub fn listens_for_bluetooth(self) -> (listens: bool)
        ensures
            listens == (self == InputMode::Bluetooth),
    {
        match self {
            InputMode::Bluetooth => true,
            _ => false,
        }
    }

    /// What the menu says of an attempt to switch over.
    pub open spec fn line(self, ok: bool) -> Seq<char> {
        "Status: "@ + self.label()@ + if ok {
            " mode selected"@
        } else {
            " mode failed"@
        }
    }

    pub fn result_line(self, ok: bool) -> (line: String)
        ensures
            line@ == self.line(ok),
    {
        let mut line = "Status: ".to_owned();
        line.push_str(self.menu_label());
        if ok {
            line.push_str(" mode selected");
        } else {
            line.push_str(" mode failed");
        }
        line
    }

    /// What is said where the Mac has no such audio device.
    pub fn missing_device_message(self) -> (message: String)
        ensures
            message@ == "m5mic "@ + self.label()@ + " input is not available"@,
    {
        let mut message = "m5mic ".to_owned();
        message.push_str(self.menu_label());
        message.push_str(" input is not available");
        message
    }
}

#[derive(Debug, Clone, Copy, PartialEq, Eq, Structural)]
pub enum RecordingCommand {
    Start,
    Stop,
}

impl RecordingCommand {
    pub open spec fn label(self) -> &'static str {
        match self {
            RecordingCommand::Start => "start recording",
            RecordingCommand::Stop => "stop recording",
        }
    }

    pub fn menu_label(self) -> (label: &'static str)
        ensures
            label == self.label(),
    {
        match self {
            RecordingCommand::Start => "start recording",
            RecordingCommand::Stop => "stop recording",
        }
    }

    /// The command that starts or stops a recording.
    pub open spec fn command(self) -> &'static str {
        match self {
            RecordingCommand::Start => CONTROL_RECORD_START,
            RecordingCommand::Stop => CONTROL_RECORD_STOP,
        }
    }

    pub fn payload(self) -> (payload: &'static str)
        ensures
            payload == self.command(),
    {
        match self {
            RecordingCommand::Start => CONTROL_RECORD_START,
            RecordingCommand::Stop => CONTROL_RECORD_STOP,
        }
    }

    /// What the menu says of an attempt to send it.
    pub open spec fn line(self, ok: bool) -> Seq<char> {
        "Status: "@ + self.label()@ + if ok {
            " sent"@
        } else {
            " failed"@
        }
    }

    pub fn result_line(self, ok: bool) -> (line: String)
        ensures
            line@ == self.line(ok),
    {
        let mut line = "Status: ".to_owned();
        line.push_str(self.menu_label());
        if ok {
            line.push_str(" sent");
        } else {
            line.push_str(" failed");
        }
        line
    }
}

/// What an item of the menu does.
#[derive(Debug, Clone, Copy, PartialEq, Eq, Structural)]
pub enum MenuCommand {
    SoundSettings,
    Quit,
    SetMode(InputMode),
    Record(RecordingCommand),
    ProvisionWifi,
    InstallDriver,
}

/// What the item with this name does.
pub open spec fn command_named(id: Seq<char>) -> Option<MenuCommand> {
    if id == "sound-settings"@ {
        Some(MenuCommand::SoundSettings)
    } else if id == "quit"@ {
        Some(MenuCommand::Quit)
    } else if id == "mode-wifi"@ {
        Some(MenuCommand::SetMode(InputMode::Wifi))
    } else if id == "mode-bluetooth"@ {
        Some(MenuCommand::SetMode(InputMode::Bluetooth))
    } else if id == "mode-usb"@ {
        Some(MenuCommand::SetMode(InputMode::Usb))
    } else if id == "record-start"@ {
        Some(MenuCommand::Record(RecordingCommand::Start))
    } else if id == "record-stop"@ {
        Some(MenuCommand::Record(RecordingCommand::Stop))
    } else if id == "provision-wifi"@ {
        Some(MenuCommand::ProvisionWifi)
    } else if id == "install-driver"@ {
        Some(MenuCommand::InstallDriver)
    } else {
        None
    }
}

pub fn menu_command(id: &str) -> (command: Option<MenuCommand>)
    ensures
        command == command_named(id@),
{
    if text_equal(id, "sound-settings") {
        Some(MenuCommand::SoundSettings)
    } else if text_equal(id, "quit") {
        Some(MenuCommand::Quit)
    } else if text_equal(id, "mode-wifi") {
        Some(MenuCommand::SetMode(InputMode::Wifi))
    } else if text_equal(id, "mode-bluetooth") {
        Some(MenuCommand::SetMode(InputMode::Bluetooth))
    } else if text_equal(id, "mode-usb") {
        Some(MenuCommand::SetMode(InputMode::Usb))
    } else if text_equal(id, "record-start") {
        Some(MenuCommand::Record(RecordingCommand::Start))
    } else if text_equal(id, "record-stop") {
        Some(MenuCommand::Record(RecordingCommand::Stop))
    } else if text_equal(id, "provision-wifi") {
        Some(MenuCommand::ProvisionWifi)
    } else if text_equal(id, "install-driver") {
        Some(MenuCommand::InstallDriver)
    } else {
        None
    }
}

/// What is said of a link does not depend on what it is: a stream, a link that is up and
/// an error read the same over Bluetooth and over the network.
pub proof fn law_both_links_are_spoken_of_alike(stream_id: u32, err: String)
    ensures
        bluetooth_text(BleReceiverStatus::Receiving { stream_id }) == receiver_text(
            ReceiverStatus::Receiving { stream_id },
        ),
        bluetooth_text(BleReceiverStatus::Connected) == receiver_text(ReceiverStatus::Connected),
        bluetooth_text(BleReceiverStatus::Error(err)) == receiver_text(ReceiverStatus::Error(err)),
        bluetooth_text(BleReceiverStatus::Error(err)).len() == err@.len() + 7,
        bluetooth_text(BleReceiverStatus::Error(err)).skip(7) == err@,
{
    reveal_strlit("error: ");
    assert(("error: "@ + err@).skip(7) =~= err@);
}

/// A recording over Bluetooth hides what the receiver does, and nothing else over
/// Bluetooth shows.
pub proof fn law_a_bluetooth_recording_comes_first(
    receiver: ReceiverStatus,
    other: ReceiverStatus,
    ble: BleReceiverStatus,
)
    ensures
        ble is Receiving ==> combined_text(receiver, ble) == combined_text(other, ble),
        ble matches BleReceiverStatus::Receiving { stream_id } ==> combined_text(receiver, ble)
            == "Bluetooth "@ + combined_text(
            ReceiverStatus::Receiving { stream_id },
            BleReceiverStatus::Disabled,
        ),
        !(ble is Receiving) ==> combined_text(receiver, ble) == combined_text(
            receiver,
            BleReceiverStatus::Disabled,
        ),
        combined_text(receiver, BleReceiverStatus::Disabled) == receiver_text(receiver),
{
}

/// The icon shows a recording if and only if there is one, over whichever link, and an
/// error if and only if there is one and no recording.
pub proof fn law_the_icon_shows_the_most_important(
    receiver: ReceiverStatus,
    ble: BleReceiverStatus,
)
    ensures
        combined_icon(receiver, ble) == DotIcon::Recording <==> receiver is Receiving
            || ble is Receiving,
        combined_icon(receiver, ble) != DotIcon::Idle <==> receiver is Receiving || ble is Receiving
            || receiver is Error || ble is Error,
{
}

/// The driver can be installed from the menu if and only if it is missing, a copy is
/// there, and no installation is under way; while one is, the menu says so whatever
/// else is the case.
pub proof fn law_only_a_missing_driver_is_installed(status: DriverStatus, other: DriverStatus)
    ensures
        driver_menu_of(status, false).enabled <==> status == DriverStatus::Missing,
        !driver_menu_of(status, true).enabled,
        driver_menu_of(status, true) == driver_menu_of(other, true),
        status != other ==> driver_menu_of(status, false).status@ != driver_menu_of(
            other,
            false,
        ).status@ && driver_menu_of(status, false).item@ != driver_menu_of(other, false).item@,
        driver_menu_of(status, true).status@ != driver_menu_of(other, false).status@,
{
    reveal_strlit("Driver: installing");
    reveal_strlit("Driver: installed");
    reveal_strlit("Driver: install required");
    reveal_strlit("Driver: bundled copy missing");
    reveal_strlit("Audio Driver Installed");
    reveal_strlit("Install Audio Driver...");
    reveal_strlit("Audio Driver Unavailable");
    assert("Driver: installing"@.len() == 18 && "Driver: installed"@.len() == 17);
    assert("Driver: install required"@.len() == 24 && "Driver: bundled copy missing"@.len() == 28);
    assert("Audio Driver Installed"@.len() == 22 && "Install Audio Driver..."@.len() == 23);
    assert("Audio Driver Unavailable"@.len() == 24);
}

/// The name of the item that does something.
pub open spec fn item_name(command: MenuCommand) -> Seq<char> {
    match command {
        MenuCommand::SetMode(InputMode::Wifi) => "mode-wifi"@,
        MenuCommand::SetMode(InputMode::Bluetooth) => "mode-bluetooth"@,
        MenuCommand::SetMode(InputMode::Usb) => "mode-usb"@,
        MenuCommand::Record(RecordingCommand::Start) => "record-start"@,
        MenuCommand::Record(RecordingCommand::Stop) => "record-stop"@,
        MenuCommand::SoundSettings => "sound-settings"@,
        MenuCommand::ProvisionWifi => "provision-wifi"@,
        MenuCommand::InstallDriver => "install-driver"@,
        MenuCommand::Quit => "quit"@,
    }
}

/// Each item does what its name says, and nothing does it but that item.
pub proof fn law_items_do_what_their_names_say(id: Seq<char>, command: MenuCommand)
    ensures
        command_named(id) == Some(command) <==> id == item_name(command),
{
    reveal_strlit("mode-wifi");
    reveal_strlit("mode-bluetooth");
    reveal_strlit("mode-usb");
    reveal_strlit("record-start");
    reveal_strlit("record-stop");
    reveal_strlit("sound-settings");
    reveal_strlit("provision-wifi");
    reveal_strlit("install-driver");
    reveal_strlit("quit");
    assert("mode-wifi"@.len() == 9 && "mode-bluetooth"@.len() == 14 && "mode-usb"@.len() == 8);
    assert("record-start"@.len() == 12 && "record-stop"@.len() == 11 && "quit"@.len() == 4);
    assert("sound-settings"@.len() == 14 && "provision-wifi"@.len() == 14
        && "install-driver"@.len() == 14);
    assert("sound-settings"@[0] == 's' && "provision-wifi"@[0] == 'p' && "install-driver"@[0]
        == 'i' && "mode-bluetooth"@[0] == 'm');
}

/// Whether an attempt went well or failed, the line about it names what was attempted,
/// and one that failed reads otherwise than one that went well.
pub proof fn law_results_are_told_apart(mode: InputMode, command: RecordingCommand)
    ensures
        mode.line(true) == "Status: "@ + mode.label()@ + " mode selected"@,
        mode.line(true) != mode.line(false),
        command.line(true) == "Status: "@ + command.label()@ + " sent"@,
        command.line(true) != command.line(false),
{
    reveal_strlit(" mode selected");
    reveal_strlit(" mode failed");
    reveal_strlit(" sent");
    reveal_strlit(" failed");
    assert(mode.line(true).len() == 2 + mode.line(false).len());
    assert(command.line(true).len() + 2 == command.line(false).len());
}

/// What the menu calls a mode or a command agrees with the name of its item.
pub proof fn law_labels_agree_with_names(mode: InputMode, command: RecordingCommand)
    ensures
        mode != InputMode::Wifi ==> same_ignoring_case(
            mode.label()@,
            item_name(MenuCommand::SetMode(mode)).skip(5),
        ),
        mode == InputMode::Wifi ==> mode.label()@ == "Wi-Fi"@,
        command.label()@ == item_name(MenuCommand::Record(command)).skip(7) + " recording"@,
{
    reveal_strlit("Bluetooth");
    reveal_strlit("USB");
    reveal_strlit("mode-bluetooth");
    reveal_strlit("mode-usb");
    reveal_strlit("record-start");
    reveal_strlit("record-stop");
    reveal_strlit("start recording");
    reveal_strlit("stop recording");
    reveal_strlit(" recording");
    let name = item_name(MenuCommand::SetMode(mode)).skip(5);
    if mode != InputMode::Wifi {
        let label = mode.label()@;
        assert(label.len() == name.len());
        assert forall|i: int| 0 <= i < label.len() implies #[trigger] label[i] == name[i]
            || is_capital_of(label[i], name[i]) || is_capital_of(name[i], label[i]) by {}
        law_case_is_ignored(label, name);
    }
    assert(command.label()@ =~= item_name(MenuCommand::Record(command)).skip(7) + " recording"@);
}

/// What is said of USB tells its statuses apart: one that is not connected is said to be
/// just that, and what is not known is neither.
pub proof fn law_usb_statuses_are_told_apart(a: UsbStatus, b: UsbStatus)
    ensures
        usb_text(a)@ == usb_text(b)@ ==> a == b,
        usb_text(UsbStatus::Disconnected)@ == "not "@ + usb_text(UsbStatus::Connected)@,
        usb_text(UsbStatus::Connected)@ == "connected"@,
{
    reveal_strlit("connected");
    reveal_strlit("not connected");
    reveal_strlit("unknown");
    reveal_strlit("not ");
    assert("connected"@.len() == 9 && "not connected"@.len() == 13 && "unknown"@.len() == 7);
    assert("not connected"@ =~= "not "@ + "connected"@);
}

/// The driver can be installed from the menu if and only if it is not there and a copy of
/// it is.
pub proof fn law_the_driver_is_offered_where_it_can_be_had(installed: bool, bundled: bool)
    ensures
        driver_menu_of(status_of_driver(installed, bundled), false).enabled <==> !installed
            && bundled,
        status_of_driver(installed, bundled) is Installed <==> installed,
{
}

} // verus!
