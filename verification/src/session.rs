//! The device between recordings: its buttons, and what each request comes to.

use vstd::prelude::*;

use crate::control::{
    saturating, ActiveMode, ControlEvent, ModeCommand, CONTROL_PRIORITY_PHONE,
};
use crate::provision::ProvisionedWifi;
use crate::recording::{ReceiverCache, RecordMode};
use crate::usb_audio::TransportMode;

verus! {

pub const BATTERY_REFRESH_US: u64 = 30_000_000;

pub const SETUP_BOOT_HOLD_MS: u32 = 1_200;

pub const SETUP_IDLE_HOLD_MS: u32 = 2_000;

pub const PUSH_TO_TALK_HOLD_MS: u32 = 450;

/// How long a button is given to settle.
pub const SETTLE_MS: u32 = 30;

/// How long a button is left alone between two looks at it.
pub const POLL_MS: u32 = 20;

/// What is known of a button.
#[derive(Debug, Clone, Copy, PartialEq, Eq, Structural)]
pub enum Press {
    /// It has not been looked at.
    Unseen,
    /// It was down once.
    Settling,
    /// It has been down since then.
    Down { since_us: u64 },
}

/// What comes of a look at a button.
#[derive(Debug, Clone, Copy, PartialEq, Eq, Structural)]
pub enum PressStep {
    /// It is not pressed.
    NotPressed,
    /// Look again after `SETTLE_MS`.
    Settle,
    /// It is pressed: look again at once.
    Pressed,
    /// Look again after `POLL_MS`.
    Hold,
    /// It has been held long enough.
    Held,
    /// It has been let go after a press.
    Released,
}

pub open spec fn elapsed_us(since_us: u64, now_us: u64) -> int {
    if now_us > since_us {
        now_us - since_us
    } else {
        0
    }
}

/// What comes of a look at a button that counts as held after `hold_us`, or never.
pub open spec fn press_after(press: Press, down: bool, now_us: u64, hold_us: Option<u64>) -> (
    Press,
    PressStep,
) {
    match press {
        Press::Unseen => if down {
            (Press::Settling, PressStep::Settle)
        } else {
            (Press::Unseen, PressStep::NotPressed)
        },
        Press::Settling => if down {
            (Press::Down { since_us: now_us }, PressStep::Pressed)
        } else {
            (Press::Unseen, PressStep::NotPressed)
        },
        Press::Down { since_us } => if !down {
            (Press::Unseen, PressStep::Released)
        } else if hold_us is Some && elapsed_us(since_us, now_us) >= hold_us->0 {
            (press, PressStep::Held)
        } else {
            (press, PressStep::Hold)
        },
    }
}

impl Press {
    /// A look at the button.
    pub fn look(&mut self, down: bool, now_us: u64, hold_us: Option<u64>) -> (step: PressStep)
        ensures
            (*final(self), step) == press_after(*old(self), down, now_us, hold_us),
    {
        match *self {
            Press::Unseen => if down {
                *self = Press::Settling;
                PressStep::Settle
            } else {
                PressStep::NotPressed
            },
            Press::Settling => if down {
                *self = Press::Down { since_us: now_us };
                PressStep::Pressed
            } else {
                *self = Press::Unseen;
                PressStep::NotPressed
            },
            Press::Down { since_us } => if !down {
                *self = Press::Unseen;
                PressStep::Released
            } else {
                let held = match hold_us {
                    Some(hold_us) => now_us.saturating_sub(since_us) >= hold_us,
                    None => false,
                };
                if held {
                    PressStep::Held
                } else {
                    PressStep::Hold
                }
            },
        }
    }
}

/// A press that is let go before it counts as held never counts as held, and one
/// that is still down once the time is up always does.
pub proof fn law_hold_time_decides(since_us: u64, now_us: u64, down: bool, hold_us: u64)
    ensures
        press_after(Press::Down { since_us }, down, now_us, Some(hold_us)).1 == PressStep::Held
            <==> down && elapsed_us(since_us, now_us) >= hold_us,
{
}

/// How long a hold of `ms` takes.
pub fn hold_us(ms: u32) -> (us: u64)
    ensures
        us == ms * 1_000,
{
    ms as u64 * 1_000
}

/// What a press of the first button asks for, once it is over: a short one starts
/// a recording that runs on, and a long one a recording that lasts as long as the
/// button is held.
pub open spec fn recording_asked_for(step: PressStep) -> Option<RecordMode> {
    match step {
        PressStep::Held => Some(RecordMode::PushToTalk),
        PressStep::Released => Some(RecordMode::Latched),
        _ => None,
    }
}

/// What the press of the first button asks for.
pub fn record_request(step: PressStep) -> (mode: Option<RecordMode>)
    ensures
        mode == recording_asked_for(step),
{
    match step {
        PressStep::Held => Some(RecordMode::PushToTalk),
        PressStep::Released => Some(RecordMode::Latched),
        _ => None,
    }
}

#[derive(Debug, Clone, Copy, PartialEq, Eq, Structural)]
pub enum ButtonBAction {
    CycleMode,
    Setup,
}

/// What a press of the second button asks for, once it is over.
pub open spec fn asked_of_button_b(step: PressStep) -> Option<ButtonBAction> {
    match step {
        PressStep::Held => Some(ButtonBAction::Setup),
        PressStep::Released => Some(ButtonBAction::CycleMode),
        _ => None,
    }
}

/// What the press of the second button asks for.
pub fn button_b_action(step: PressStep) -> (action: Option<ButtonBAction>)
    ensures
        action == asked_of_button_b(step),
{
    match step {
        PressStep::Held => Some(ButtonBAction::Setup),
        PressStep::Released => Some(ButtonBAction::CycleMode),
        _ => None,
    }
}

/// Something that is done again and again.
#[derive(Debug, Clone, Copy, PartialEq, Eq, Structural)]
pub struct RefreshTimer {
    pub interval_us: u64,
    pub next_us: u64,
}

/// A timer that has just gone off, or has been started.
pub open spec fn timer_from(now_us: u64, interval_us: u64) -> RefreshTimer {
    RefreshTimer { interval_us, next_us: saturating(now_us + interval_us) }
}

impl RefreshTimer {
    pub open spec fn is_due(self, now_us: u64) -> bool {
        now_us >= self.next_us
    }

    pub fn start(now_us: u64, interval_us: u64) -> (timer: RefreshTimer)
        ensures
            timer == timer_from(now_us, interval_us),
    {
        RefreshTimer { interval_us, next_us: now_us.saturating_add(interval_us) }
    }

    /// Whether it is due; if so it is due again one interval later.
    pub fn due(&mut self, now_us: u64) -> (due: bool)
        ensures
            due == old(self).is_due(now_us),
            *final(self) == if due {
                timer_from(now_us, old(self).interval_us)
            } else {
                *old(self)
            },
    {
        if now_us >= self.next_us {
            self.next_us = now_us.saturating_add(self.interval_us);
            true
        } else {
            false
        }
    }
}

/// The level meter of the USB microphone: it is drawn when it changes.
#[derive(Debug, Clone, Copy, PartialEq, Eq, Structural)]
pub struct UsbLevel {
    pub timer: RefreshTimer,
    pub last_level: Option<u8>,
}

impl UsbLevel {
    /// The level to draw, if it is time to and it has changed since it was drawn.
    pub fn to_show(&mut self, now_us: u64, level: u8) -> (shown: Option<u8>)
        ensures
            ({
                let due = now_us >= old(self).timer.next_us;
                &&& shown == if due && old(self).last_level != Some(level) {
                    Some(level)
                } else {
                    None
                }
                &&& final(self).last_level == if due {
                    Some(level)
                } else {
                    old(self).last_level
                }
                &&& final(self).timer == if due {
                    (RefreshTimer {
                        next_us: saturating(now_us + old(self).timer.interval_us),
                        ..old(self).timer
                    })
                } else {
                    old(self).timer
                }
            }),
    {
        if !self.timer.due(now_us) {
            return None;
        }
        let known = match self.last_level {
            Some(last) => last == level,
            None => false,
        };
        self.last_level = Some(level);
        if known {
            None
        } else {
            Some(level)
        }
    }
}

/// What the main loop is asked to do.
#[derive(Debug)]
pub enum IdleAction {
    Record { mode: RecordMode, priority: u8 },
    Setup,
    CycleMode,
    SetMode(ModeCommand),
    ProvisionWifi(ProvisionedWifi),
}

pub fn action_for_button_b(action: ButtonBAction) -> (idle: IdleAction)
    ensures
        idle == match action {
            ButtonBAction::CycleMode => IdleAction::CycleMode,
            ButtonBAction::Setup => IdleAction::Setup,
        },
{
    match action {
        ButtonBAction::CycleMode => IdleAction::CycleMode,
        ButtonBAction::Setup => IdleAction::Setup,
    }
}

/// What an event asks of a device that is idle: there is nothing to stop.
pub open spec fn idle_action(event: ControlEvent) -> Option<IdleAction> {
    match event {
        ControlEvent::SetMode(command) => Some(IdleAction::SetMode(command)),
        ControlEvent::RecordStart { priority } => Some(
            IdleAction::Record { mode: RecordMode::Latched, priority },
        ),
        ControlEvent::RecordStop => None,
        ControlEvent::ProvisionWifi(wifi) => Some(IdleAction::ProvisionWifi(wifi)),
    }
}

pub fn action_when_idle(event: ControlEvent) -> (action: Option<IdleAction>)
    ensures
        action == idle_action(event),
{
    match event {
        ControlEvent::SetMode(command) => Some(IdleAction::SetMode(command)),
        ControlEvent::RecordStart { priority } => Some(
            IdleAction::Record { mode: RecordMode::Latched, priority },
        ),
        ControlEvent::RecordStop => None,
        ControlEvent::ProvisionWifi(wifi) => Some(IdleAction::ProvisionWifi(wifi)),
    }
}

/// What an event asks of the USB microphone: it does not record, and it is in USB
/// mode already.
pub open spec fn usb_action(event: ControlEvent) -> Option<IdleAction> {
    match event {
        ControlEvent::SetMode(command) => if command.mode == ActiveMode::Usb {
            None
        } else {
            Some(IdleAction::SetMode(command))
        },
        ControlEvent::ProvisionWifi(wifi) => Some(IdleAction::ProvisionWifi(wifi)),
        _ => None,
    }
}

pub fn action_when_usb(event: ControlEvent) -> (action: Option<IdleAction>)
    ensures
        action == usb_action(event),
{
    match event {
        ControlEvent::SetMode(command) => match command.mode {
            ActiveMode::Usb => None,
            _ => Some(IdleAction::SetMode(command)),
        },
        ControlEvent::ProvisionWifi(wifi) => Some(IdleAction::ProvisionWifi(wifi)),
        ControlEvent::RecordStart { .. } => None,
        ControlEvent::RecordStop => None,
    }
}

/// What the main loop does about an action.
#[derive(Debug)]
pub enum MainStep {
    Record(RecordMode),
    /// Nothing: the microphone is in USB mode, which does not record.
    Ignore,
    /// Bring up the mode that is now active.
    Activate,
    /// The mode was active already.
    AlreadyActive,
    /// Store the credentials, and then bring up Wi-Fi.
    SaveWifi(ProvisionedWifi),
    /// Open the setup portal, for good.
    Setup,
}

/// The mode of the device, and the receiver that its recordings go to.
#[derive(Debug)]
pub struct Device {
    pub active_mode: ActiveMode,
    pub cached_receiver: ReceiverCache,
}

/// The mode after an action.
pub open spec fn mode_after(mode: ActiveMode, action: IdleAction) -> ActiveMode {
    match action {
        IdleAction::Record { .. } => mode,
        IdleAction::CycleMode => mode.successor(),
        IdleAction::SetMode(command) => command.mode,
        IdleAction::ProvisionWifi(_) => ActiveMode::Wifi,
        IdleAction::Setup => mode,
    }
}

/// The receiver that is remembered after an action: a phone that asks for Wi-Fi, or for a
/// recording over it, has the receiver looked for anew.
pub open spec fn receiver_after(
    mode: ActiveMode,
    known: Option<Seq<char>>,
    action: IdleAction,
) -> Option<Seq<char>> {
    match action {
        IdleAction::Record { priority, .. } => if mode == ActiveMode::Wifi && priority
            >= CONTROL_PRIORITY_PHONE {
            None
        } else {
            known
        },
        IdleAction::SetMode(command) => if command.priority >= CONTROL_PRIORITY_PHONE
            && command.mode == ActiveMode::Wifi {
            None
        } else {
            known
        },
        _ => known,
    }
}

/// What the main loop does about an action.
pub open spec fn step_for(mode: ActiveMode, action: IdleAction) -> MainStep {
    match action {
        IdleAction::Record { mode: recording, .. } => if mode == ActiveMode::Usb {
            MainStep::Ignore
        } else {
            MainStep::Record(recording)
        },
        IdleAction::CycleMode => MainStep::Activate,
        IdleAction::SetMode(command) => if command.mode == mode {
            MainStep::AlreadyActive
        } else {
            MainStep::Activate
        },
        IdleAction::ProvisionWifi(wifi) => MainStep::SaveWifi(wifi),
        IdleAction::Setup => MainStep::Setup,
    }
}

impl Device {
    pub fn new() -> (device: Device)
        ensures
            device.active_mode == ActiveMode::Wifi,
            device.cached_receiver.known() is None,
    {
        Device { active_mode: ActiveMode::Wifi, cached_receiver: ReceiverCache::new() }
    }

    /// Takes up an action. A phone that asks for Wi-Fi, or for a recording over
    /// it, has the receiver looked for anew.
    pub fn take_up(&mut self, action: IdleAction) -> (step: MainStep)
        ensures
            step == step_for(old(self).active_mode, action),
            final(self).active_mode == mode_after(old(self).active_mode, action),
            final(self).cached_receiver.known() == receiver_after(
                old(self).active_mode,
                old(self).cached_receiver.known(),
                action,
            ),
    {
        match action {
            IdleAction::Record { mode, priority } => {
                if self.active_mode == ActiveMode::Wifi && priority >= CONTROL_PRIORITY_PHONE {
                    self.cached_receiver.forget();
                }
                if self.active_mode == ActiveMode::Usb {
                    MainStep::Ignore
                } else {
                    MainStep::Record(mode)
                }
            },
            IdleAction::CycleMode => {
                self.active_mode = self.active_mode.next();
                MainStep::Activate
            },
            IdleAction::SetMode(command) => {
                if command.priority >= CONTROL_PRIORITY_PHONE && command.mode == ActiveMode::Wifi {
                    self.cached_receiver.forget();
                }
                if command.mode == self.active_mode {
                    MainStep::AlreadyActive
                } else {
                    self.active_mode = command.mode;
                    MainStep::Activate
                }
            },
            IdleAction::ProvisionWifi(wifi) => {
                self.active_mode = ActiveMode::Wifi;
                MainStep::SaveWifi(wifi)
            },
            IdleAction::Setup => MainStep::Setup,
        }
    }
}

/// What the audio goes over in a mode.
pub open spec fn transport_of(mode: ActiveMode) -> TransportMode {
    match mode {
        ActiveMode::Usb => TransportMode::Usb,
        _ => TransportMode::Wireless,
    }
}

/// The transport to bring up in a mode.
pub fn transport_for(mode: ActiveMode) -> (transport: TransportMode)
    ensures
        transport == transport_of(mode),
{
    match mode {
        ActiveMode::Usb => TransportMode::Usb,
        _ => TransportMode::Wireless,
    }
}

/// A button that is tapped asks for a recording that runs on, and one that is held for
/// the time for one that lasts as long as it is held; until either, and while the button
/// settles, nothing is asked for. The other button toggles the mode in the one case and
/// opens the setup in the other.
pub proof fn law_a_tap_and_a_hold_ask_for_different_things(
    first_us: u64,
    pressed_us: u64,
    now_us: u64,
    hold_us: u64,
    down: bool,
)
    ensures
        ({
            let hold = Some(hold_us);
            let (settling, first) = press_after(Press::Unseen, true, first_us, hold);
            let (pressed, second) = press_after(settling, true, pressed_us, hold);
            let (after, third) = press_after(pressed, down, now_us, hold);
            let long = now_us >= pressed_us + hold_us || (hold_us == 0);
            &&& recording_asked_for(first) is None && asked_of_button_b(first) is None
            &&& recording_asked_for(second) is None && asked_of_button_b(second) is None
            &&& !down ==> recording_asked_for(third) == Some(RecordMode::Latched)
                && asked_of_button_b(third) == Some(ButtonBAction::CycleMode) && after
                == Press::Unseen
            &&& down && long ==> recording_asked_for(third) == Some(RecordMode::PushToTalk)
                && asked_of_button_b(third) == Some(ButtonBAction::Setup)
            &&& down && !long ==> recording_asked_for(third) is None && asked_of_button_b(
                third,
            ) is None && after == pressed
        }),
        press_after(Press::Settling, false, now_us, Some(hold_us)) == (
            Press::Unseen,
            PressStep::NotPressed,
        ),
        press_after(Press::Unseen, false, now_us, Some(hold_us)) == (
            Press::Unseen,
            PressStep::NotPressed,
        ),
        press_after(Press::Down { since_us: pressed_us }, true, now_us, None).1
            == PressStep::Hold,
{
}

/// A timer goes off once in each interval: not before an interval has passed since it
/// was started or last went off, and at any time after.
pub proof fn law_a_timer_goes_off_once_an_interval(since_us: u64, interval_us: u64, now_us: u64)
    requires
        since_us + interval_us <= u64::MAX,
    ensures
        timer_from(since_us, interval_us).is_due(now_us) <==> now_us >= since_us + interval_us,
        timer_from(since_us, interval_us).interval_us == interval_us,
{
}

/// The mode is changed only by a toggle, a mode command and new credentials: a toggle
/// changes between wireless and USB, a command sets its mode, and credentials bring up
/// Wi-Fi.
pub proof fn law_modes_change_as_asked(mode: ActiveMode, action: IdleAction)
    ensures
        mode_after(mode, action) != mode ==> action is CycleMode || action is SetMode
            || action is ProvisionWifi,
        action is CycleMode ==> (transport_of(mode_after(mode, action)) == TransportMode::Usb)
            != (transport_of(mode) == TransportMode::Usb),
        action matches IdleAction::SetMode(command) ==> mode_after(mode, action) == command.mode,
        action is ProvisionWifi ==> mode_after(mode, action) == ActiveMode::Wifi,
        transport_of(mode) == TransportMode::Usb <==> mode == ActiveMode::Usb,
{
}

/// A recording is made if and only if the mode is wireless, and as it was asked for; a
/// mode that is active already is not brought up again.
pub proof fn law_the_main_loop_does_as_asked(mode: ActiveMode, action: IdleAction)
    ensures
        action matches IdleAction::Record { mode: recording, .. } ==> {
            &&& mode != ActiveMode::Usb ==> step_for(mode, action) == MainStep::Record(recording)
            &&& mode == ActiveMode::Usb ==> step_for(mode, action) is Ignore
        },
        step_for(mode, action) is Record ==> action is Record,
        step_for(mode, action) is Setup <==> action is Setup,
        action matches IdleAction::ProvisionWifi(wifi) ==> step_for(mode, action)
            == MainStep::SaveWifi(wifi),
        step_for(mode, action) is Activate && action is SetMode ==> mode_after(mode, action) != mode,
        step_for(mode, action) is AlreadyActive ==> mode_after(mode, action) == mode,
        action is CycleMode ==> step_for(mode, action) is Activate,
{
}

/// A receiver that is remembered is forgotten only for a phone, and only where it is to
/// be reached over Wi-Fi.
pub proof fn law_a_receiver_is_forgotten_for_a_phone(
    mode: ActiveMode,
    known: Option<Seq<char>>,
    action: IdleAction,
)
    requires
        known is Some,
    ensures
        receiver_after(mode, known, action) == known || receiver_after(mode, known, action) is None,
        receiver_after(mode, known, action) is None <==> match action {
            IdleAction::Record { priority, .. } => priority >= 100 && mode == ActiveMode::Wifi,
            IdleAction::SetMode(command) => command.priority >= 100 && mode_after(mode, action)
                == ActiveMode::Wifi,
            _ => false,
        },
{
}

/// Idle and in USB mode alike, an event asks for nothing but what it says; in USB mode no
/// recording is asked for and none of the modes that is active.
pub proof fn law_events_ask_for_what_they_say(event: ControlEvent)
    ensures
        idle_action(event) is None <==> event is RecordStop,
        event matches ControlEvent::SetMode(command) ==> idle_action(event) == Some(
            IdleAction::SetMode(command),
        ),
        event matches ControlEvent::RecordStart { priority } ==> (idle_action(event) matches Some(
            IdleAction::Record { mode, priority: given },
        ) && mode == RecordMode::Latched && given == priority),
        usb_action(event) is Some ==> usb_action(event) == idle_action(event),
        usb_action(event) is None <==> event is RecordStop || event is RecordStart || (event matches ControlEvent::SetMode(command)
            && command.mode == ActiveMode::Usb),
{
}

} // verus!
