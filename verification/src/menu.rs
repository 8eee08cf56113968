//! The menu-bar app, from one event to the next.

use vstd::prelude::*;
use vstd::string::*;

use crate::ble_receiver::BleReceiverStatus;
use crate::control::{
    command_in, law_plain_commands_are_understood, ControlAction, ControlCommand, ControlMode,
    CONTROL_PRIORITY_LEGACY,
};
use crate::receiver::ReceiverStatus;
use crate::statusbar::{
    bluetooth_status_text, bluetooth_text, combined_icon, combined_status_text, combined_text,
    driver_menu_of, icon_for_combined_status, menu_line, sync_driver_menu, usb_item_change,
    usb_status_text, usb_text, DotIcon, DriverInstall, DriverMenu, DriverStatus, InputMode,
    MenuCommand, RecordingCommand, UsbStatus,
};

verus! {

/// How the installation of the driver went.
#[derive(Debug)]
pub enum DriverInstallResult {
    Installed,
    Skipped,
    Failed(String),
}

impl DriverInstallResult {
    pub open spec fn line(self) -> &'static str {
        match self {
            DriverInstallResult::Installed => "Status: audio driver installed",
            DriverInstallResult::Skipped => "Status: audio driver not installed",
            DriverInstallResult::Failed(_) => "Status: audio driver install failed",
        }
    }

    pub fn status_line(&self) -> (line: &'static str)
        ensures
            line == self.line(),
    {
        match self {
            DriverInstallResult::Installed => "Status: audio driver installed",
            DriverInstallResult::Skipped => "Status: audio driver not installed",
            DriverInstallResult::Failed(_) => "Status: audio driver install failed",
        }
    }
}

/// How sending a network to the device went.
#[derive(Debug)]
pub enum WifiProvisionResult {
    Sent,
    Skipped,
    Failed(String),
}

impl WifiProvisionResult {
    pub open spec fn line(self) -> &'static str {
        match self {
            WifiProvisionResult::Sent => "Status: Wi-Fi sent over Bluetooth",
            WifiProvisionResult::Skipped => "Status: Wi-Fi setup canceled",
            WifiProvisionResult::Failed(_) => "Status: Bluetooth Wi-Fi setup failed",
        }
    }

    pub fn status_line(&self) -> (line: &'static str)
        ensures
            line == self.line(),
    {
        match self {
            WifiProvisionResult::Sent => "Status: Wi-Fi sent over Bluetooth",
            WifiProvisionResult::Skipped => "Status: Wi-Fi setup canceled",
            WifiProvisionResult::Failed(_) => "Status: Bluetooth Wi-Fi setup failed",
        }
    }
}

pub const DRIVER_REQUIRED: &'static str = "Status: audio driver required";

pub const DRIVER_INSTALLING: &'static str = "Status: installing audio driver";

pub const WIFI_SETUP: &'static str = "Status: setting up Wi-Fi over Bluetooth";

/// Something that happens to the app.
#[derive(Debug)]
pub enum AppEvent {
    Receiver(ReceiverStatus),
    Bluetooth(BleReceiverStatus),
    Usb(UsbStatus),
    /// The item for USB has been put into the menu, or taken out.
    UsbItemShown(bool),
    Driver(DriverStatus),
    /// An installation is over; with it comes the driver's status now.
    DriverInstall { result: DriverInstallResult, status: DriverStatus },
    WifiProvision(WifiProvisionResult),
    ModeSwitched { mode: InputMode, ok: bool },
    RecordingSent { command: RecordingCommand, ok: bool },
    Chosen(MenuCommand),
}

/// Something that the app does.
#[derive(Debug)]
pub enum AppAction {
    ShowStatus(String),
    ShowBluetooth(String),
    ShowUsb(String),
    ShowDriver(DriverMenu),
    ShowTray { tooltip: String, icon: DotIcon },
    /// Put the item for USB into the menu, or take it out.
    ShowUsbItem(bool),
    /// Ask the user to install the driver.
    AskForDriver,
    /// Ask the user for what is needed to send a network to the device.
    AskForWifi,
    /// Listen for Bluetooth, or no longer.
    Listen(bool),
    SwitchMode(InputMode),
    SendRecording(RecordingCommand),
    /// Send a command over Bluetooth too.
    SendOverBluetooth(&'static str),
    OpenSoundSettings,
    Quit,
}

/// An action, its texts taken as characters.
pub ghost enum Act {
    ShowStatus(Seq<char>),
    ShowBluetooth(Seq<char>),
    ShowUsb(Seq<char>),
    ShowDriver(DriverMenu),
    ShowTray { tooltip: Seq<char>, icon: DotIcon },
    ShowUsbItem(bool),
    AskForDriver,
    AskForWifi,
    Listen(bool),
    SwitchMode(InputMode),
    SendRecording(RecordingCommand),
    SendOverBluetooth(Seq<char>),
    OpenSoundSettings,
    Quit,
}

impl View for AppAction {
    type V = Act;

    open spec fn view(&self) -> Act {
        match *self {
            AppAction::ShowStatus(line) => Act::ShowStatus(line@),
            AppAction::ShowBluetooth(line) => Act::ShowBluetooth(line@),
            AppAction::ShowUsb(line) => Act::ShowUsb(line@),
            AppAction::ShowDriver(menu) => Act::ShowDriver(menu),
            AppAction::ShowTray { tooltip, icon } => Act::ShowTray { tooltip: tooltip@, icon },
            AppAction::ShowUsbItem(show) => Act::ShowUsbItem(show),
            AppAction::AskForDriver => Act::AskForDriver,
            AppAction::AskForWifi => Act::AskForWifi,
            AppAction::Listen(listen) => Act::Listen(listen),
            AppAction::SwitchMode(mode) => Act::SwitchMode(mode),
            AppAction::SendRecording(command) => Act::SendRecording(command),
            AppAction::SendOverBluetooth(payload) => Act::SendOverBluetooth(payload@),
            AppAction::OpenSoundSettings => Act::OpenSoundSettings,
            AppAction::Quit => Act::Quit,
        }
    }
}

pub open spec fn acts(actions: Seq<AppAction>) -> Seq<Act> {
    actions.map_values(|action: AppAction| action@)
}

/// What the app knows.
#[derive(Debug)]
pub struct MenuApp {
    pub receiver: ReceiverStatus,
    pub bluetooth: BleReceiverStatus,
    pub install: DriverInstall,
    pub usb_item_shown: bool,
}

/// What is shown of the receiver and of Bluetooth together.
pub open spec fn status_acts(receiver: ReceiverStatus, bluetooth: BleReceiverStatus) -> Seq<Act> {
    seq![
        Act::ShowStatus("Status"@ + ": "@ + combined_text(receiver, bluetooth)),
        Act::ShowTray {
            tooltip: "m5mic"@ + ": "@ + combined_text(receiver, bluetooth),
            icon: combined_icon(receiver, bluetooth),
        },
    ]
}

/// What is done about the driver's status: the first time that the driver is
/// missing, the user is asked to install it.
pub open spec fn driver_acts(install: DriverInstall, status: DriverStatus) -> Seq<Act> {
    let shown = seq![Act::ShowDriver(driver_menu_of(status, install.running))];
    if !install.prompted && status == DriverStatus::Missing {
        shown + seq![
            Act::ShowStatus(DRIVER_REQUIRED@),
            Act::ShowDriver(driver_menu_of(status, true)),
            Act::AskForDriver,
        ]
    } else {
        shown
    }
}

pub open spec fn install_after(install: DriverInstall, status: DriverStatus) -> DriverInstall {
    if !install.prompted && status == DriverStatus::Missing {
        DriverInstall { status, running: true, prompted: true }
    } else {
        DriverInstall { status, ..install }
    }
}

/// What an item of the menu does.
pub open spec fn chosen_acts(install: DriverInstall, command: MenuCommand) -> Seq<Act> {
    match command {
        MenuCommand::SoundSettings => seq![Act::OpenSoundSettings],
        MenuCommand::Quit => seq![Act::Quit],
        MenuCommand::SetMode(mode) => seq![
            Act::Listen(mode == InputMode::Bluetooth),
            Act::SwitchMode(mode),
            Act::SendOverBluetooth(mode.command()@),
        ],
        MenuCommand::Record(command) => seq![
            Act::SendRecording(command),
            Act::SendOverBluetooth(command.command()@),
        ],
        MenuCommand::ProvisionWifi => seq![Act::ShowStatus(WIFI_SETUP@), Act::AskForWifi],
        MenuCommand::InstallDriver => if install.running {
            Seq::empty()
        } else {
            seq![
                Act::ShowStatus(DRIVER_INSTALLING@),
                Act::ShowDriver(driver_menu_of(install.status, true)),
                Act::AskForDriver,
            ]
        },
    }
}

/// What the app does about an event.
pub open spec fn event_acts(app: MenuApp, event: AppEvent) -> Seq<Act> {
    match event {
        AppEvent::Receiver(status) => status_acts(status, app.bluetooth),
        AppEvent::Bluetooth(status) => seq![
            Act::ShowBluetooth("Bluetooth"@ + ": "@ + bluetooth_text(status)),
        ] + status_acts(app.receiver, status),
        AppEvent::Usb(status) => {
            let shown = seq![Act::ShowUsb("USB"@ + ": "@ + usb_text(status)@)];
            if (status == UsbStatus::Connected) != app.usb_item_shown {
                shown + seq![Act::ShowUsbItem(status == UsbStatus::Connected)]
            } else {
                shown
            }
        },
        AppEvent::UsbItemShown(_) => Seq::empty(),
        AppEvent::Driver(status) => driver_acts(app.install, status),
        AppEvent::DriverInstall { result, status } => seq![
            Act::ShowStatus(result.line()@),
            Act::ShowDriver(driver_menu_of(status, false)),
        ],
        AppEvent::WifiProvision(result) => seq![Act::ShowStatus(result.line()@)],
        AppEvent::ModeSwitched { mode, ok } => seq![Act::ShowStatus(mode.line(ok))],
        AppEvent::RecordingSent { command, ok } => seq![Act::ShowStatus(command.line(ok))],
        AppEvent::Chosen(command) => chosen_acts(app.install, command),
    }
}

/// What the app knows after an event.
pub open spec fn app_after(app: MenuApp, event: AppEvent) -> MenuApp {
    match event {
        AppEvent::Receiver(status) => MenuApp { receiver: status, ..app },
        AppEvent::Bluetooth(status) => MenuApp { bluetooth: status, ..app },
        AppEvent::UsbItemShown(shown) => MenuApp { usb_item_shown: shown, ..app },
        AppEvent::Driver(status) => MenuApp { install: install_after(app.install, status), ..app },
        AppEvent::DriverInstall { status, .. } => MenuApp {
            install: DriverInstall { status, running: false, ..app.install },
            ..app
        },
        AppEvent::Chosen(MenuCommand::InstallDriver) => MenuApp {
            install: DriverInstall { running: true, ..app.install },
            ..app
        },
        _ => app,
    }
}

impl MenuApp {
    /// The app as it starts, with what it does first.
    pub fn start(driver: DriverStatus, usb: UsbStatus) -> (result: (MenuApp, Vec<AppAction>))
        ensures
            ({
                let before = DriverInstall { status: driver, running: false, prompted: false };
                &&& result.0 == (MenuApp {
                    receiver: ReceiverStatus::Starting,
                    bluetooth: BleReceiverStatus::Disabled,
                    install: install_after(before, driver),
                    usb_item_shown: usb == UsbStatus::Connected,
                })
                &&& acts(result.1@) == driver_acts(before, driver)
            }),
    {
        let mut app = MenuApp {
            receiver: ReceiverStatus::Starting,
            bluetooth: BleReceiverStatus::Disabled,
            install: DriverInstall { status: driver, running: false, prompted: false },
            usb_item_shown: usb == UsbStatus::Connected,
        };
        let mut actions: Vec<AppAction> = Vec::new();
        assert(acts(actions@) =~= Seq::<Act>::empty());
        app.look_at_driver(driver, &mut actions);
        assert(acts(actions@) =~= driver_acts(
            DriverInstall { status: driver, running: false, prompted: false },
            driver,
        ));
        (app, actions)
    }

    fn show_status(&self, actions: &mut Vec<AppAction>)
        ensures
            acts(final(actions)@) == acts(old(actions)@) + status_acts(
                self.receiver,
                self.bluetooth,
            ),
    {
        let text = combined_status_text(&self.receiver, &self.bluetooth);
        let ghost before = actions@;
        actions.push(AppAction::ShowStatus(menu_line("Status", text.as_str())));
        actions.push(
            AppAction::ShowTray {
                tooltip: menu_line("m5mic", text.as_str()),
                icon: icon_for_combined_status(&self.receiver, &self.bluetooth),
            },
        );
        assert(acts(actions@) =~= acts(before) + status_acts(self.receiver, self.bluetooth));
    }

    fn look_at_driver(&mut self, status: DriverStatus, actions: &mut Vec<AppAction>)
        ensures
            *final(self) == (MenuApp {
                install: install_after(old(self).install, status),
                ..*old(self)
            }),
            acts(final(actions)@) == acts(old(actions)@) + driver_acts(old(self).install, status),
    {
        let ghost before = actions@;
        let ghost install = self.install;
        actions.push(AppAction::ShowDriver(sync_driver_menu(status, self.install.running)));
        if self.install.on_status(status) {
            actions.push(AppAction::ShowStatus(DRIVER_REQUIRED.to_owned()));
            actions.push(AppAction::ShowDriver(sync_driver_menu(status, true)));
            actions.push(AppAction::AskForDriver);
        }
        assert(acts(actions@) =~= acts(before) + driver_acts(install, status));
    }

    /// Takes up what an item of the menu asks for.
    fn take_up(&mut self, command: MenuCommand, actions: &mut Vec<AppAction>)
        ensures
            *final(self) == app_after(*old(self), AppEvent::Chosen(command)),
            acts(final(actions)@) == acts(old(actions)@) + chosen_acts(old(self).install, command),
    {
        let ghost before = actions@;
        let ghost install = self.install;
        match command {
            MenuCommand::SoundSettings => {
                actions.push(AppAction::OpenSoundSettings);
            },
            MenuCommand::Quit => {
                actions.push(AppAction::Quit);
            },
            MenuCommand::SetMode(mode) => {
                actions.push(AppAction::Listen(mode.listens_for_bluetooth()));
                actions.push(AppAction::SwitchMode(mode));
                actions.push(AppAction::SendOverBluetooth(mode.payload()));
            },
            MenuCommand::Record(command) => {
                actions.push(AppAction::SendRecording(command));
                actions.push(AppAction::SendOverBluetooth(command.payload()));
            },
            MenuCommand::ProvisionWifi => {
                actions.push(AppAction::ShowStatus(WIFI_SETUP.to_owned()));
                actions.push(AppAction::AskForWifi);
            },
            MenuCommand::InstallDriver => {
                if self.install.on_chosen() {
                    actions.push(AppAction::ShowStatus(DRIVER_INSTALLING.to_owned()));
                    actions.push(AppAction::ShowDriver(sync_driver_menu(self.install.status, true)));
                    actions.push(AppAction::AskForDriver);
                }
            },
        }
        assert(acts(actions@) =~= acts(before) + chosen_acts(install, command));
    }

    /// Takes in an event, and says what is done about it.
    pub fn on_event(&mut self, event: AppEvent) -> (actions: Vec<AppAction>)
        ensures
            *final(self) == app_after(*old(self), event),
            acts(actions@) == event_acts(*old(self), event),
    {
        let ghost before = *self;
        let mut actions: Vec<AppAction> = Vec::new();
        assert(acts(actions@) =~= Seq::<Act>::empty());
        match event {
            AppEvent::Receiver(status) => {
                self.receiver = status;
                self.show_status(&mut actions);
            },
            AppEvent::Bluetooth(status) => {
                let text = bluetooth_status_text(&status);
                actions.push(AppAction::ShowBluetooth(menu_line("Bluetooth", text.as_str())));
                self.bluetooth = status;
                self.show_status(&mut actions);
            },
            AppEvent::Usb(status) => {
                actions.push(AppAction::ShowUsb(menu_line("USB", usb_status_text(status))));
                if let Some(show) = usb_item_change(status, self.usb_item_shown) {
                    actions.push(AppAction::ShowUsbItem(show));
                }
            },
            AppEvent::UsbItemShown(shown) => {
                self.usb_item_shown = shown;
            },
            AppEvent::Driver(status) => {
                self.look_at_driver(status, &mut actions);
            },
            AppEvent::DriverInstall { result, status } => {
                self.install.on_result(status);
                actions.push(AppAction::ShowStatus(result.status_line().to_owned()));
                actions.push(AppAction::ShowDriver(sync_driver_menu(status, false)));
            },
            AppEvent::WifiProvision(result) => {
                actions.push(AppAction::ShowStatus(result.status_line().to_owned()));
            },
            AppEvent::ModeSwitched { mode, ok } => {
                actions.push(AppAction::ShowStatus(mode.result_line(ok)));
            },
            AppEvent::RecordingSent { command, ok } => {
                actions.push(AppAction::ShowStatus(command.result_line(ok)));
            },
            AppEvent::Chosen(command) => {
                self.take_up(command, &mut actions);
            },
        }
        assert(acts(actions@) =~= event_acts(before, event));
        actions
    }
}

/// What the menu sends is understood by the device: a mode as that mode, and a
/// recording as its start or stop.
pub proof fn law_the_device_understands_the_menu(mode: InputMode, command: RecordingCommand)
    ensures
        command_in(mode.command().spec_bytes()) == Some(
            ControlCommand {
                action: ControlAction::SetMode(
                    match mode {
                        InputMode::Wifi => ControlMode::Wifi,
                        InputMode::Bluetooth => ControlMode::Bluetooth,
                        InputMode::Usb => ControlMode::Usb,
                    },
                ),
                priority: CONTROL_PRIORITY_LEGACY,
            },
        ),
        command_in(command.command().spec_bytes()) == Some(
            ControlCommand {
                action: match command {
                    RecordingCommand::Start => ControlAction::RecordStart,
                    RecordingCommand::Stop => ControlAction::RecordStop,
                },
                priority: CONTROL_PRIORITY_LEGACY,
            },
        ),
{
    law_plain_commands_are_understood();
}

/// However often the driver's status is looked at, the user is asked to install it
/// without having chosen to at most once.
pub proof fn law_the_driver_is_asked_for_once(
    app: MenuApp,
    status: DriverStatus,
    between: Seq<AppEvent>,
    later: DriverStatus,
)
    requires
        event_acts(app, AppEvent::Driver(status)).contains(Act::AskForDriver),
    ensures
        !event_acts(
            app_after_all(app_after(app, AppEvent::Driver(status)), between),
            AppEvent::Driver(later),
        ).contains(Act::AskForDriver),
{
    let asked = app_after(app, AppEvent::Driver(status));
    assert(asked.install.prompted) by {
        if !(!app.install.prompted && status == DriverStatus::Missing) {
            let acts = event_acts(app, AppEvent::Driver(status));
            let i = choose|i: int| 0 <= i < acts.len() && acts[i] == Act::AskForDriver;
            assert(acts[0] is ShowDriver);
        }
    }
    lemma_prompted_stays(asked, between);
    let then = app_after_all(asked, between);
    let acts = event_acts(then, AppEvent::Driver(later));
    assert forall|i: int| 0 <= i < acts.len() implies acts[i] != Act::AskForDriver by {
        assert(acts[0] is ShowDriver);
    }
}

/// What the app knows after some events.
pub open spec fn app_after_all(app: MenuApp, events: Seq<AppEvent>) -> MenuApp
    decreases events.len(),
{
    if events.len() == 0 {
        app
    } else {
        app_after(app_after_all(app, events.drop_last()), events.last())
    }
}

proof fn lemma_prompted_stays(app: MenuApp, events: Seq<AppEvent>)
    requires
        app.install.prompted,
    ensures
        app_after_all(app, events).install.prompted,
    decreases events.len(),
{
    if events.len() > 0 {
        lemma_prompted_stays(app, events.drop_last());
    }
}

/// What the app does is what was chosen: it quits, opens the sound settings, switches
/// the mode, sends a command and asks for a network if and only if the item for it is.
pub proof fn law_items_do_what_they_are_for(
    app: MenuApp,
    event: AppEvent,
    mode: InputMode,
    command: RecordingCommand,
)
    ensures
        ({
            let done = event_acts(app, event);
            &&& done.contains(Act::Quit) <==> event == AppEvent::Chosen(MenuCommand::Quit)
            &&& done.contains(Act::OpenSoundSettings) <==> event == AppEvent::Chosen(
                MenuCommand::SoundSettings,
            )
            &&& done.contains(Act::SwitchMode(mode)) <==> event == AppEvent::Chosen(
                MenuCommand::SetMode(mode),
            )
            &&& done.contains(Act::SendRecording(command)) <==> event == AppEvent::Chosen(
                MenuCommand::Record(command),
            )
            &&& done.contains(Act::AskForWifi) <==> event == AppEvent::Chosen(
                MenuCommand::ProvisionWifi,
            )
        }),
{
    let done = event_acts(app, event);
    lemma_acts_of_choices(app, MenuCommand::Quit);
    lemma_acts_of_choices(app, MenuCommand::SoundSettings);
    lemma_acts_of_choices(app, MenuCommand::SetMode(mode));
    lemma_acts_of_choices(app, MenuCommand::Record(command));
    lemma_acts_of_choices(app, MenuCommand::ProvisionWifi);
}

/// A choice has its own action among what is done about it.
proof fn lemma_acts_of_choices(app: MenuApp, command: MenuCommand)
    ensures
        ({
            let done = event_acts(app, AppEvent::Chosen(command));
            match command {
                MenuCommand::SoundSettings => done.contains(Act::OpenSoundSettings),
                MenuCommand::Quit => done.contains(Act::Quit),
                MenuCommand::SetMode(mode) => done.contains(Act::SwitchMode(mode)),
                MenuCommand::Record(command) => done.contains(Act::SendRecording(command)),
                MenuCommand::ProvisionWifi => done.contains(Act::AskForWifi),
                MenuCommand::InstallDriver => true,
            }
        }),
{
    let done = event_acts(app, AppEvent::Chosen(command));
    match command {
        MenuCommand::SoundSettings => assert(done[0] == Act::OpenSoundSettings),
        MenuCommand::Quit => assert(done[0] == Act::Quit),
        MenuCommand::SetMode(mode) => assert(done[1] == Act::SwitchMode(mode)),
        MenuCommand::Record(command) => assert(done[0] == Act::SendRecording(command)),
        MenuCommand::ProvisionWifi => assert(done[1] == Act::AskForWifi),
        MenuCommand::InstallDriver => {},
    }
}

/// Choosing a mode has the Mac listen for Bluetooth if and only if Bluetooth was chosen,
/// before the microphone is switched over, and tells the microphone over both links.
pub proof fn law_a_choice_of_mode_is_carried_out(app: MenuApp, mode: InputMode)
    ensures
        ({
            let done = event_acts(app, AppEvent::Chosen(MenuCommand::SetMode(mode)));
            &&& done.len() == 3
            &&& done[0] == Act::Listen(mode == InputMode::Bluetooth)
            &&& done[1] == Act::SwitchMode(mode)
            &&& done[2] == Act::SendOverBluetooth(mode.command()@)
            &&& app_after(app, AppEvent::Chosen(MenuCommand::SetMode(mode))) == app
        }),
{
}

/// What is shown after news of either link is what both are now, whichever of them the
/// news was of; and news of one leaves the other as it was.
pub proof fn law_both_links_are_shown_as_they_are(app: MenuApp, event: AppEvent)
    requires
        event is Receiver || event is Bluetooth,
    ensures
        ({
            let after = app_after(app, event);
            let done = event_acts(app, event);
            let text = combined_text(after.receiver, after.bluetooth);
            &&& event matches AppEvent::Receiver(status) ==> after.receiver == status
                && after.bluetooth == app.bluetooth
            &&& event matches AppEvent::Bluetooth(status) ==> after.bluetooth == status
                && after.receiver == app.receiver
            &&& done.contains(Act::ShowStatus("Status: "@ + text))
            &&& done.contains(
                Act::ShowTray {
                    tooltip: "m5mic: "@ + text,
                    icon: combined_icon(after.receiver, after.bluetooth),
                },
            )
        }),
{
    let after = app_after(app, event);
    let done = event_acts(app, event);
    let text = combined_text(after.receiver, after.bluetooth);
    reveal_strlit("Status: ");
    reveal_strlit("Status");
    reveal_strlit("m5mic: ");
    reveal_strlit("m5mic");
    reveal_strlit(": ");
    assert("Status"@ + ": "@ + text =~= "Status: "@ + text);
    assert("m5mic"@ + ": "@ + text =~= "m5mic: "@ + text);
    let n = done.len() as int;
    assert(done[n - 2] == Act::ShowStatus("Status: "@ + text));
    assert(done[n - 1] is ShowTray);
}

/// The item for USB is put into the menu when the microphone is plugged in and taken out
/// when it is gone, once each: after that, the same news changes nothing.
pub proof fn law_the_usb_item_follows_the_plug(app: MenuApp, status: UsbStatus, shown: bool)
    ensures
        event_acts(app, AppEvent::Usb(status)).contains(Act::ShowUsbItem(shown)) <==> (shown
            != app.usb_item_shown && shown == (status == UsbStatus::Connected)),
        !event_acts(
            app_after(app, AppEvent::UsbItemShown(status == UsbStatus::Connected)),
            AppEvent::Usb(status),
        ).contains(Act::ShowUsbItem(shown)),
        app_after(app, AppEvent::UsbItemShown(shown)).usb_item_shown == shown,
{
    let done = event_acts(app, AppEvent::Usb(status));
    if shown != app.usb_item_shown && shown == (status == UsbStatus::Connected) {
        assert(done[1] == Act::ShowUsbItem(shown));
    }
}

/// One installation runs at a time: choosing it begins one if and only if none is under
/// way, it is under way from then on until its result is there, and it can be chosen
/// again then.
pub proof fn law_one_installation_runs_at_a_time(
    app: MenuApp,
    event: AppEvent,
    result: DriverInstallResult,
    status: DriverStatus,
)
    ensures
        ({
            let choice = AppEvent::Chosen(MenuCommand::InstallDriver);
            &&& event_acts(app, choice).contains(Act::AskForDriver) <==> !app.install.running
            &&& app_after(app, choice).install.running
            &&& app.install.running && !(event is DriverInstall) ==> app_after(
                app,
                event,
            ).install.running
            &&& !app_after(app, AppEvent::DriverInstall { result, status }).install.running
            &&& event_acts(app, event).contains(Act::AskForDriver) ==> app_after(
                app,
                event,
            ).install.running
            &&& event_acts(app, event).contains(Act::AskForDriver) ==> event == choice
                || event is Driver
        }),
{
    let choice = AppEvent::Chosen(MenuCommand::InstallDriver);
    if !app.install.running {
        assert(event_acts(app, choice)[2] == Act::AskForDriver);
    }
}

/// The status that the driver is known to have is the one that was last told.
pub proof fn law_the_driver_is_as_last_told(
    app: MenuApp,
    event: AppEvent,
    result: DriverInstallResult,
    status: DriverStatus,
)
    ensures
        app_after(app, AppEvent::Driver(status)).install.status == status,
        app_after(app, AppEvent::DriverInstall { result, status }).install.status == status,
        !(event is Driver) && !(event is DriverInstall) ==> app_after(app, event).install.status
            == app.install.status,
        !(event is UsbItemShown) ==> app_after(app, event).usb_item_shown == app.usb_item_shown,
        !(event is Receiver) ==> app_after(app, event).receiver == app.receiver,
        !(event is Bluetooth) ==> app_after(app, event).bluetooth == app.bluetooth,
{
}

/// The line about an installation or about a network that was sent says how it went, and
/// not why.
pub proof fn law_outcomes_are_told(
    install: DriverInstallResult,
    wifi: WifiProvisionResult,
    why: String,
    other: String,
)
    ensures
        install is Installed <==> install.line()@ == "Status: audio driver installed"@,
        install is Skipped <==> install.line()@ == "Status: audio driver not installed"@,
        install is Failed <==> install.line()@ == "Status: audio driver install failed"@,
        wifi is Sent <==> wifi.line()@ == "Status: Wi-Fi sent over Bluetooth"@,
        wifi is Skipped <==> wifi.line()@ == "Status: Wi-Fi setup canceled"@,
        wifi is Failed <==> wifi.line()@ == "Status: Bluetooth Wi-Fi setup failed"@,
        DriverInstallResult::Failed(why).line() == DriverInstallResult::Failed(other).line(),
        WifiProvisionResult::Failed(why).line() == WifiProvisionResult::Failed(other).line(),
{
    reveal_strlit("Status: audio driver installed");
    reveal_strlit("Status: audio driver not installed");
    reveal_strlit("Status: audio driver install failed");
    reveal_strlit("Status: Wi-Fi sent over Bluetooth");
    reveal_strlit("Status: Wi-Fi setup canceled");
    reveal_strlit("Status: Bluetooth Wi-Fi setup failed");
    assert("Status: audio driver installed"@.len() == 30);
    assert("Status: audio driver not installed"@.len() == 34);
    assert("Status: audio driver install failed"@.len() == 35);
    assert("Status: Wi-Fi sent over Bluetooth"@.len() == 33);
    assert("Status: Wi-Fi setup canceled"@.len() == 28);
    assert("Status: Bluetooth Wi-Fi setup failed"@.len() == 36);
}

/// Whenever something happens to the driver, the menu shows what is known of it from then
/// on.
pub proof fn law_the_driver_is_shown_as_it_is(app: MenuApp, event: AppEvent)
    requires
        event is Driver || event is DriverInstall || (event == AppEvent::Chosen(
            MenuCommand::InstallDriver,
        ) && !app.install.running),
    ensures
        ({
            let after = app_after(app, event).install;
            event_acts(app, event).contains(
                Act::ShowDriver(driver_menu_of(after.status, after.running)),
            )
        }),
{
    let after = app_after(app, event).install;
    let done = event_acts(app, event);
    let shown = Act::ShowDriver(driver_menu_of(after.status, after.running));
    match event {
        AppEvent::Driver(status) => {
            if !app.install.prompted && status == DriverStatus::Missing {
                assert(done[2] == shown);
            } else {
                assert(done[0] == shown);
            }
        },
        AppEvent::DriverInstall { .. } => assert(done[1] == shown),
        _ => assert(done[1] == shown),
    }
}

} // verus!
