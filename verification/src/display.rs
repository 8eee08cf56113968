//! The screens of the device, as layers of shapes.

use vstd::prelude::*;
use vstd::string::*;

use crate::canvas::{
    centered_layers, disc, disc_layer, law_layers_compose, layered, lemma_single_layer, on_panel,
    rect, rect_layer, text_layers, text_width, width_of, Canvas, HEIGHT, Layer, WIDTH,
};
use crate::power::{unknown_battery, BatteryView};
use crate::provision::{
    ascii_chars, code_digits, law_the_digits_spell_the_code, provision_code_bytes,
};
use crate::text::{
    all_digits, chars_of, decimal, decimal_value, has_prefix, law_decimal_round_trip, push_decimal,
    starts_with,
};
use crate::wifi_config::{AppSettings, BatteryBrightness};

verus! {

broadcast use {law_layers_compose, lemma_single_layer};

pub const HEADER_HEIGHT: i32 = 31;

pub const RECORD_CX: i32 = 67;

pub const HOME_RECORD_CY: i32 = 82;

pub const ACTIVE_RECORD_CY: i32 = 78;

pub const BLACK: u16 = 0x0021;

pub const PANEL: u16 = 0x0883;

pub const PANEL_3: u16 = 0x1927;

pub const TEXT: u16 = 0xef9f;

pub const MUTED: u16 = 0x7c74;

pub const GREEN: u16 = 0x2eaf;

pub const CYAN: u16 = 0x463f;

pub const AMBER: u16 = 0xfd88;

pub const RED: u16 = 0xe968;

pub const RED_SOFT: u16 = 0x90c6;

pub const RED_DARK: u16 = 0x4063;

pub const LINE: u16 = 0x2189;

pub const BACKLIGHT_FULL_PERCENT: u32 = 100;

pub const BACKLIGHT_DIM_PERCENT: u32 = 18;

#[derive(Debug, Clone, Copy, PartialEq, Eq, Structural)]
pub enum RecordModeView {
    Latched,
    PushToTalk,
}

#[derive(Debug, Clone, Copy, PartialEq, Eq, Structural)]
pub enum TransportView {
    Wifi,
    Bluetooth,
}

#[derive(Debug, Clone, Copy, PartialEq, Eq, Structural)]
pub enum Brightness {
    Full,
    Dim,
    Off,
}

/// How bright the screen is: as bright as can be on external power or if the
/// settings ask for it, and dim on battery otherwise.
pub open spec fn brightness_for(external_power: bool, settings: AppSettings) -> Brightness {
    if external_power || settings.battery_brightness == BatteryBrightness::Full {
        Brightness::Full
    } else {
        Brightness::Dim
    }
}

pub fn display_brightness_for_power(external_power: bool, settings: &AppSettings) -> (brightness:
    Brightness)
    ensures
        brightness == brightness_for(external_power, *settings),
{
    if external_power || settings.battery_brightness == BatteryBrightness::Full {
        Brightness::Full
    } else {
        Brightness::Dim
    }
}

impl Brightness {
    pub open spec fn percent(self) -> u32 {
        match self {
            Brightness::Full => BACKLIGHT_FULL_PERCENT,
            Brightness::Dim => BACKLIGHT_DIM_PERCENT,
            Brightness::Off => 0,
        }
    }

    /// The duty cycle of the backlight, of `max_duty`.
    pub fn backlight_duty(self, max_duty: u32) -> (duty: u32)
        requires
            max_duty * self.percent() <= u32::MAX,
        ensures
            duty == max_duty * self.percent() / 100,
    {
        match self {
            Brightness::Full => max_duty * 100 / 100,
            Brightness::Dim => max_duty * 18 / 100,
            Brightness::Off => 0,
        }
    }
}

/// A command for the display controller, with its data and the pause behind it.
#[derive(Debug)]
pub struct PanelCommand {
    pub command: u8,
    pub data: Vec<u8>,
    pub pause_ms: u32,
}

pub open spec fn panel_command(command: PanelCommand) -> (u8, Seq<u8>, u32) {
    (command.command, command.data@, command.pause_ms)
}

/// What sets the controller up before the screen is cleared: a reset, the end of
/// its sleep, the colour format, the memory order, and inverted colours.
pub open spec fn setup_sequence() -> Seq<(u8, Seq<u8>, u32)> {
    seq![
        (0x01u8, Seq::<u8>::empty(), 150u32),
        (0x11u8, Seq::<u8>::empty(), 120u32),
        (0x3au8, seq![0x55u8], 0u32),
        (0x36u8, seq![0x00u8], 0u32),
        (0x21u8, Seq::<u8>::empty(), 0u32),
    ]
}

/// What turns the screen on once it has been cleared.
pub const DISPLAY_ON: u8 = 0x29;

/// What announces the columns and the rows of a rectangle, and its points.
pub const SET_COLUMNS: u8 = 0x2a;

pub const SET_ROWS: u8 = 0x2b;

pub const WRITE_MEMORY: u8 = 0x2c;

pub fn setup_commands() -> (commands: Vec<PanelCommand>)
    ensures
        commands@.len() == setup_sequence().len(),
        forall|i: int|
            0 <= i < commands@.len() ==> panel_command(#[trigger] commands@[i])
                == setup_sequence()[i],
{
    let mut commands: Vec<PanelCommand> = Vec::new();
    let mut format: Vec<u8> = Vec::new();
    format.push(0x55);
    let mut order: Vec<u8> = Vec::new();
    order.push(0x00);
    commands.push(PanelCommand { command: 0x01, data: Vec::new(), pause_ms: 150 });
    commands.push(PanelCommand { command: 0x11, data: Vec::new(), pause_ms: 120 });
    commands.push(PanelCommand { command: 0x3a, data: format, pause_ms: 0 });
    commands.push(PanelCommand { command: 0x36, data: order, pause_ms: 0 });
    commands.push(PanelCommand { command: 0x21, data: Vec::new(), pause_ms: 0 });
    assert(format@ =~= seq![0x55u8]);
    assert(order@ =~= seq![0x00u8]);
    commands
}

/// An empty screen with its header bar.
pub open spec fn empty_layers() -> Seq<Layer> {
    seq![rect_layer(0, 0, WIDTH as int, HEIGHT as int, BLACK)] + seq![
        rect_layer(0, 0, WIDTH as int, HEADER_HEIGHT as int, PANEL),
    ] + seq![rect_layer(0, HEADER_HEIGHT as int, WIDTH as int, 1, LINE)]
}

/// A thin line below the header while recording.
pub open spec fn recording_layers(recording: bool) -> Seq<Layer> {
    if recording {
        seq![rect_layer(0, HEADER_HEIGHT + 1, WIDTH as int, 2, RED_DARK)]
    } else {
        Seq::empty()
    }
}

/// The colour of the battery's charge.
pub open spec fn battery_color(battery: BatteryView) -> u16 {
    match battery.percent {
        Some(percent) => if battery.external_power {
            GREEN
        } else if percent <= 15 {
            RED
        } else if percent <= 35 {
            AMBER
        } else {
            TEXT
        },
        None => MUTED,
    }
}

/// The battery's charge in words.
pub open spec fn battery_label(battery: BatteryView) -> Seq<char> {
    match battery.percent {
        Some(percent) => if percent >= 100 {
            "100%"@
        } else {
            decimal(percent as nat) + "%"@
        },
        None => if battery.external_power {
            "USB"@
        } else {
            "--"@
        },
    }
}

pub open spec fn battery_layers(battery: BatteryView) -> Seq<Layer> {
    let label = battery_label(battery);
    text_layers(
        label,
        WIDTH - width_of(label.len() as int, 2) - 7,
        8,
        2,
        battery_color(battery),
    )
}

pub open spec fn network_bar_layers(x: int, color: u16) -> Seq<Layer> {
    seq![rect_layer(x, 18, 3, 4, color)] + seq![rect_layer(x + 6, 14, 3, 8, color)] + seq![
        rect_layer(x + 12, 10, 3, 12, color),
    ]
}

pub open spec fn usb_mark_layers(x: int, color: u16) -> Seq<Layer> {
    seq![rect_layer(x, 18, 18, 3, color)] + seq![rect_layer(x + 7, 11, 4, 10, color)] + seq![
        rect_layer(x + 14, 13, 5, 5, color),
    ]
}

pub open spec fn wifi_base(battery: BatteryView, net_color: u16, recording: bool) -> Seq<Layer> {
    empty_layers() + text_layers("WIFI"@, 7, 8, 2, TEXT) + network_bar_layers(64, net_color)
        + battery_layers(battery) + recording_layers(recording)
}

pub open spec fn usb_base(battery: BatteryView) -> Seq<Layer> {
    empty_layers() + text_layers("USB"@, 8, 8, 2, TEXT) + usb_mark_layers(56, CYAN)
        + battery_layers(battery)
}

pub open spec fn bluetooth_base(battery: BatteryView, recording: bool) -> Seq<Layer> {
    empty_layers() + text_layers("BT"@, 8, 5, 3, TEXT) + battery_layers(battery)
        + recording_layers(recording)
}

pub open spec fn setup_base(battery: BatteryView) -> Seq<Layer> {
    empty_layers() + text_layers("SETUP"@, 7, 8, 2, TEXT) + battery_layers(battery)
}

pub open spec fn error_base(battery: BatteryView) -> Seq<Layer> {
    empty_layers() + text_layers("ERR"@, 8, 8, 2, RED) + battery_layers(battery)
}

pub open spec fn transport_base(
    battery: BatteryView,
    transport: TransportView,
    recording: bool,
) -> Seq<Layer> {
    match transport {
        TransportView::Wifi => wifi_base(battery, GREEN, recording),
        TransportView::Bluetooth => bluetooth_base(battery, recording),
    }
}

/// A bar whose bright part has moved `phase` points to the right.
pub open spec fn progress_layers(y: int, color: u16, phase: int) -> Seq<Layer> {
    seq![rect_layer(18, y, 99, 5, PANEL_3)] + seq![
        rect_layer(
            18 + if phase < 0 {
                0
            } else if phase > 63 {
                63
            } else {
                phase
            },
            y,
            36,
            5,
            color,
        ),
    ]
}

pub open spec fn divider_layers(y: int, color: u16) -> Seq<Layer> {
    seq![rect_layer(18, y, 99, 1, color)]
}

/// Two rings around a disc.
pub open spec fn record_target_layers(recording: bool) -> Seq<Layer> {
    let cx = RECORD_CX as int;
    if recording {
        let cy = ACTIVE_RECORD_CY as int;
        seq![disc_layer(cx, cy, 43, RED)] + seq![disc_layer(cx, cy, 35, BLACK)] + seq![
            disc_layer(cx, cy, 28, RED_SOFT),
        ] + seq![disc_layer(cx, cy, 21, BLACK)] + seq![disc_layer(cx, cy, 16, RED)]
    } else {
        let cy = HOME_RECORD_CY as int;
        seq![disc_layer(cx, cy, 48, RED_DARK)] + seq![disc_layer(cx, cy, 40, BLACK)] + seq![
            disc_layer(cx, cy, 33, RED),
        ] + seq![disc_layer(cx, cy, 26, BLACK)] + seq![disc_layer(cx, cy, 21, RED)]
    }
}

/// How many of the twelve bars a level lights.
pub open spec fn active_bars(level_percent: int) -> int {
    ((if level_percent > 100 {
        100
    } else {
        level_percent
    }) * 12 + 99) / 100
}

pub open spec fn bar_color(index: int, active: int) -> u16 {
    if index >= active {
        PANEL_3
    } else if index <= 7 {
        GREEN
    } else if index <= 9 {
        AMBER
    } else {
        RED
    }
}

/// The first `n` bars of the level meter, each two points higher than the last.
pub open spec fn bar_layers(active: int, n: nat) -> Seq<Layer>
    decreases n,
{
    if n == 0 {
        Seq::empty()
    } else {
        let index = n - 1;
        bar_layers(active, (n - 1) as nat) + seq![
            rect_layer(
                13 + index * 9,
                197 - (6 + index * 2),
                6,
                6 + index * 2,
                bar_color(index, active),
            ),
        ]
    }
}

pub open spec fn level_meter_layers(level_percent: int) -> Seq<Layer> {
    seq![rect_layer(9, 161, 117, 40, BLACK)] + text_layers("LEVEL"@, 12, 164, 1, MUTED)
        + bar_layers(active_bars(level_percent), 12)
}

/// A rectangle with its corners rounded off, as far as it is large enough.
pub open spec fn round_rect_layers(x: int, y: int, w: int, h: int, radius: int, color: u16) -> Seq<
    Layer,
> {
    let by_width = if w / 2 < radius {
        w / 2
    } else {
        radius
    };
    let r = if h / 2 < by_width {
        h / 2
    } else {
        by_width
    };
    if r <= 0 {
        seq![rect_layer(x, y, w, h, color)]
    } else {
        seq![rect_layer(x + r, y, w - r * 2, h, color)] + seq![
            rect_layer(x, y + r, w, h - r * 2, color),
        ] + seq![disc_layer(x + r, y + r, r, color)] + seq![
            disc_layer(x + w - r - 1, y + r, r, color),
        ] + seq![disc_layer(x + r, y + h - r - 1, r, color)] + seq![
            disc_layer(x + w - r - 1, y + h - r - 1, r, color),
        ]
    }
}

/// How much a buffer can hold, for its meter.
pub open spec fn buffer_room(max_frames: int) -> int {
    if max_frames < 1 {
        1
    } else {
        max_frames
    }
}

/// How long the bar of the buffer meter is.
pub open spec fn buffer_fill(queued_frames: int, max_frames: int) -> int {
    let max = buffer_room(max_frames);
    let queued = if queued_frames > max {
        max
    } else {
        queued_frames
    };
    queued * 72 / max
}

/// The colour of that bar.
pub open spec fn buffer_color(queued_frames: int, max_frames: int) -> u16 {
    if queued_frames >= buffer_room(max_frames) {
        AMBER
    } else if queued_frames == 0 {
        PANEL_3
    } else {
        CYAN
    }
}

/// How much of `max` frames is queued, as a bar.
pub open spec fn buffer_meter_layers(queued_frames: int, max_frames: int) -> Seq<Layer> {
    let fill = buffer_fill(queued_frames, max_frames);
    let color = buffer_color(queued_frames, max_frames);
    seq![rect_layer(9, 204, 117, 13, BLACK)] + text_layers("BUF"@, 12, 206, 1, MUTED)
        + round_rect_layers(43, 207, 72, 6, 3, PANEL_3) + if fill > 0 {
        round_rect_layers(43, 207, fill, 6, 3, color)
    } else {
        Seq::empty()
    }
}

/// Two decimal digits.
pub open spec fn two_digits(n: int) -> Seq<char> {
    seq![(0x30 + n / 10) as char, (0x30 + n % 10) as char]
}

/// A time as minutes and seconds; from a hundred minutes on the minutes stand
/// still.
pub open spec fn elapsed_label(elapsed_secs: int) -> Seq<char> {
    let minutes = if elapsed_secs / 60 > 99 {
        99
    } else {
        elapsed_secs / 60
    };
    two_digits(minutes) + ":"@ + two_digits(elapsed_secs % 60)
}

pub open spec fn elapsed_layers(elapsed_secs: int) -> Seq<Layer> {
    centered_layers(elapsed_label(elapsed_secs), 123, 4, TEXT)
}

pub open spec fn wifi_connecting_screen(battery: BatteryView) -> Seq<Layer> {
    wifi_base(battery, AMBER, false) + centered_layers("JOINING"@, 56, 2, AMBER) + centered_layers(
        "WIFI"@,
        88,
        3,
        TEXT,
    ) + progress_layers(132, AMBER, 18) + centered_layers("PLEASE WAIT"@, 176, 1, MUTED)
        + centered_layers("NO SETUP AP"@, 221, 1, MUTED)
}

pub open spec fn ready_screen(battery: BatteryView) -> Seq<Layer> {
    wifi_base(battery, GREEN, false) + record_target_layers(false) + centered_layers(
        "TAP"@,
        139,
        3,
        TEXT,
    ) + centered_layers("START"@, 168, 2, RED) + centered_layers("HOLD A TALK"@, 219, 1, MUTED)
}

pub open spec fn usb_ready_screen(battery: BatteryView) -> Seq<Layer> {
    usb_base(battery) + record_target_layers(false) + centered_layers("USB MIC"@, 143, 2, TEXT)
        + level_meter_layers(0) + centered_layers("B WIFI"@, 223, 1, MUTED)
}

pub open spec fn bluetooth_ready_screen(battery: BatteryView) -> Seq<Layer> {
    bluetooth_base(battery, false) + record_target_layers(false) + centered_layers(
        "TAP"@,
        139,
        3,
        TEXT,
    ) + centered_layers("START"@, 168, 2, RED) + centered_layers("BLUETOOTH"@, 219, 1, MUTED)
}

/// The phase of the progress bar at a step of a search.
pub open spec fn phase_of(step: int) -> int {
    step % 8 * 9
}

pub open spec fn finding_screen(battery: BatteryView, transport: TransportView, step: int) -> Seq<
    Layer,
> {
    transport_base(battery, transport, false) + centered_layers("FINDING"@, 56, 2, AMBER)
        + centered_layers("RECEIVER"@, 88, 2, TEXT) + progress_layers(132, AMBER, phase_of(step))
        + centered_layers("NETWORK"@, 176, 2, MUTED) + centered_layers("WAIT"@, 221, 1, MUTED)
}

/// The code that Bluetooth provisioning asks for, in large digits.
pub open spec fn code_layers(code: Option<u32>) -> Seq<Layer> {
    match code {
        Some(code) => centered_layers(ascii_chars(code_digits(code)), 183, 2, TEXT),
        None => Seq::empty(),
    }
}

pub open spec fn setup_portal_screen(battery: BatteryView, ssid: Seq<char>, code: Option<u32>) -> Seq<
    Layer,
> {
    setup_base(battery) + centered_layers("SETUP"@, 55, 2, CYAN) + centered_layers(
        "JOIN WIFI"@,
        91,
        2,
        TEXT,
    ) + divider_layers(124, CYAN) + centered_layers(ssid, 151, 1, AMBER) + code_layers(code)
        + centered_layers("192.168.71.1"@, 221, 1, MUTED)
}

pub open spec fn setup_saved_screen(battery: BatteryView) -> Seq<Layer> {
    wifi_base(battery, GREEN, false) + centered_layers("OK"@, 58, 3, GREEN) + divider_layers(
        105,
        GREEN,
    ) + centered_layers("WIFI"@, 139, 2, TEXT) + centered_layers("SAVED"@, 166, 2, TEXT)
        + centered_layers("REBOOTING"@, 221, 1, MUTED)
}

pub open spec fn setup_rebooting_screen(battery: BatteryView) -> Seq<Layer> {
    setup_base(battery) + centered_layers("OK"@, 58, 3, CYAN) + divider_layers(105, CYAN)
        + centered_layers("MIC"@, 139, 2, TEXT) + centered_layers("MODE"@, 166, 2, TEXT)
        + centered_layers("REBOOTING"@, 221, 1, MUTED)
}

/// The meters while recording, or nothing in their place.
pub open spec fn meter_layers(live_meters: bool) -> Seq<Layer> {
    if live_meters {
        level_meter_layers(0) + buffer_meter_layers(0, 1)
    } else {
        seq![rect_layer(9, 161, 117, 56, BLACK)]
    }
}

/// How the recording is stopped, and what the other button does.
pub open spec fn stop_hint_layers(mode: RecordModeView, live_meters: bool) -> Seq<Layer> {
    match (mode, live_meters) {
        (RecordModeView::Latched, true) => centered_layers("STOP"@, 223, 2, MUTED),
        (RecordModeView::PushToTalk, true) => centered_layers("RELEASE"@, 223, 2, MUTED),
        (RecordModeView::Latched, false) => centered_layers("A STOP  B OFF"@, 224, 1, MUTED),
        (RecordModeView::PushToTalk, false) => centered_layers("RELEASE B OFF"@, 224, 1, MUTED),
    }
}

pub open spec fn recording_screen(
    battery: BatteryView,
    transport: TransportView,
    elapsed_secs: int,
    mode: RecordModeView,
    live_meters: bool,
) -> Seq<Layer> {
    transport_base(battery, transport, true) + record_target_layers(true) + elapsed_layers(
        elapsed_secs,
    ) + meter_layers(live_meters) + stop_hint_layers(mode, live_meters)
}

/// An error in two lines; one that begins with `WIFI` has a screen of its own.
pub open spec fn error_screen(battery: BatteryView, line1: Seq<char>, line2: Seq<char>) -> Seq<
    Layer,
> {
    if has_prefix(line1, "WIFI"@) {
        wifi_base(battery, AMBER, false) + centered_layers("!"@, 58, 3, RED) + divider_layers(
            105,
            RED,
        ) + centered_layers("WIFI"@, 139, 2, TEXT) + centered_layers("FAIL"@, 166, 2, TEXT)
            + centered_layers(line2, 221, 1, MUTED)
    } else {
        error_base(battery) + centered_layers("!"@, 58, 3, RED) + divider_layers(105, RED)
            + centered_layers(line1, 139, 2, TEXT) + centered_layers("ERROR"@, 166, 2, TEXT)
            + centered_layers("PRESS AGAIN"@, 221, 1, MUTED)
    }
}

/// That `layers` begin by clearing the whole panel.
pub open spec fn starts_over(layers: Seq<Layer>) -> bool {
    layers.len() > 0 && layers[0] == rect_layer(0, 0, WIDTH as int, HEIGHT as int, BLACK)
}

/// A screen that starts over leaves nothing of what was shown before: every point
/// of the panel gets a colour, and it does not depend on the point's old one.
pub proof fn law_a_screen_that_starts_over_hides_the_last(
    before: spec_fn(int, int) -> Option<u16>,
    other: spec_fn(int, int) -> Option<u16>,
    layers: Seq<Layer>,
    x: int,
    y: int,
)
    requires
        starts_over(layers),
        on_panel(x, y),
    ensures
        layered(before, layers)(x, y) is Some,
        layered(before, layers)(x, y) == layered(other, layers)(x, y),
    decreases layers.len(),
{
    if layers.len() == 1 {
        reveal_with_fuel(layered, 2);
    } else {
        assert(layers.drop_last()[0] == layers[0]);
        law_a_screen_that_starts_over_hides_the_last(before, other, layers.drop_last(), x, y);
    }
}

/// Every screen starts over.
pub proof fn law_every_screen_starts_over(
    battery: BatteryView,
    transport: TransportView,
    n: int,
    mode: RecordModeView,
    live_meters: bool,
    a: Seq<char>,
    b: Seq<char>,
    code: Option<u32>,
)
    ensures
        starts_over(wifi_connecting_screen(battery)),
        starts_over(ready_screen(battery)),
        starts_over(usb_ready_screen(battery)),
        starts_over(bluetooth_ready_screen(battery)),
        starts_over(finding_screen(battery, transport, n)),
        starts_over(setup_portal_screen(battery, a, code)),
        starts_over(setup_saved_screen(battery)),
        starts_over(setup_rebooting_screen(battery)),
        starts_over(recording_screen(battery, transport, n, mode, live_meters)),
        starts_over(error_screen(battery, a, b)),
{
    assert(starts_over(empty_layers()));
    assert(starts_over(wifi_base(battery, AMBER, false)));
    assert(starts_over(wifi_base(battery, GREEN, false)));
    assert(starts_over(wifi_base(battery, GREEN, true)));
    assert(starts_over(usb_base(battery)));
    assert(starts_over(bluetooth_base(battery, true)));
    assert(starts_over(bluetooth_base(battery, false)));
    assert(starts_over(setup_base(battery)));
    assert(starts_over(error_base(battery)));
}

pub fn progress_phase(step: usize) -> (phase: i32)
    ensures
        phase == phase_of(step as int),
{
    ((step % 8) as i32) * 9
}

/// What is drawn next, and what is known of the battery.
#[derive(Debug)]
pub struct StickDisplay {
    pub canvas: Canvas,
    pub battery: BatteryView,
}

/// That `after` is `before` with `layers` painted over it.
pub open spec fn drew(before: StickDisplay, after: StickDisplay, layers: Seq<Layer>) -> bool {
    &&& after.canvas.wf()
    &&& after.canvas@ == layered(before.canvas@, layers)
    &&& after.battery == before.battery
}

impl StickDisplay {
    pub fn new() -> (display: StickDisplay)
        ensures
            display.canvas.wf(),
            display.canvas@ == crate::canvas::blank(),
            display.battery == unknown_battery(),
    {
        StickDisplay { canvas: Canvas::new(), battery: BatteryView::unknown() }
    }

    pub fn external_power(&self) -> (external: bool)
        ensures
            external == self.battery.external_power,
    {
        self.battery.external_power
    }

    pub fn set_battery(&mut self, battery: BatteryView)
        ensures
            *final(self) == (StickDisplay { battery, ..*old(self) }),
    {
        self.battery = battery;
    }

    fn rect(&mut self, x: i32, y: i32, w: i32, h: i32, color: u16)
        requires
            old(self).canvas.wf(),
            -1000 <= x <= 1000,
            -1000 <= y <= 1000,
            -1000 <= w <= 1000,
            -1000 <= h <= 1000,
        ensures
            drew(
                *old(self),
                *final(self),
                seq![rect_layer(x as int, y as int, w as int, h as int, color)],
            ),
    {
        self.canvas.fill_rect(x, y, w, h, color);
    }

    fn circle(&mut self, cx: i32, cy: i32, radius: i32, color: u16)
        requires
            old(self).canvas.wf(),
            -1000 <= cx <= 1000,
            -1000 <= cy <= 1000,
            0 <= radius <= 100,
        ensures
            drew(
                *old(self),
                *final(self),
                seq![disc_layer(cx as int, cy as int, radius as int, color)],
            ),
    {
        self.canvas.fill_circle(cx, cy, radius, color);
    }

    fn text(&mut self, text: &str, x: i32, y: i32, scale: i32, color: u16)
        requires
            old(self).canvas.wf(),
            text@.len() <= 1000,
            1 <= scale <= 4,
            -1000 <= x <= 1000,
            -1000 <= y <= 1000,
        ensures
            drew(
                *old(self),
                *final(self),
                text_layers(text@, x as int, y as int, scale as int, color),
            ),
    {
        assert(0 <= 6 * scale * text@.len() <= 24_000) by (nonlinear_arith)
            requires
                1 <= scale <= 4,
                text@.len() <= 1000,
        ;
        self.canvas.draw_text(text, x, y, scale, color);
    }

    fn centered(&mut self, text: &str, y: i32, scale: i32, color: u16)
        requires
            old(self).canvas.wf(),
            text@.len() * 6 * scale <= i32::MAX,
            1 <= scale <= 4,
            -1000 <= y <= 1000,
        ensures
            drew(
                *old(self),
                *final(self),
                centered_layers(text@, y as int, scale as int, color),
            ),
    {
        assert(0 <= 6 * text@.len() <= text@.len() * 6 * scale) by (nonlinear_arith)
            requires
                1 <= scale,
        ;
        assert(6 * scale * text@.len() == text@.len() * 6 * scale) by (nonlinear_arith);
        self.canvas.draw_centered(text, y, scale, color);
    }

    fn draw_empty(&mut self)
        requires
            old(self).canvas.wf(),
        ensures
            drew(*old(self), *final(self), empty_layers()),
    {
        self.rect(0, 0, WIDTH, HEIGHT, BLACK);
        self.rect(0, 0, WIDTH, HEADER_HEIGHT, PANEL);
        self.rect(0, HEADER_HEIGHT, WIDTH, 1, LINE);
    }

    fn draw_recording_line(&mut self, recording: bool)
        requires
            old(self).canvas.wf(),
        ensures
            drew(*old(self), *final(self), recording_layers(recording)),
    {
        if recording {
            self.rect(0, HEADER_HEIGHT + 1, WIDTH, 2, RED_DARK);
        }
    }

    fn draw_battery(&mut self)
        requires
            old(self).canvas.wf(),
        ensures
            drew(*old(self), *final(self), battery_layers(old(self).battery)),
    {
        let external_power = self.battery.external_power;
        let color: u16 = match self.battery.percent {
            Some(percent) => if external_power {
                GREEN
            } else if percent <= 15 {
                RED
            } else if percent <= 35 {
                AMBER
            } else {
                TEXT
            },
            None => MUTED,
        };
        let mut label = String::new();
        match self.battery.percent {
            Some(percent) => {
                if percent >= 100 {
                    label.push_str("100%");
                } else {
                    push_decimal(&mut label, percent as u64);
                    label.push_str("%");
                }
            },
            None => {
                if external_power {
                    label.push_str("USB");
                } else {
                    label.push_str("--");
                }
            },
        }
        proof {
            reveal_strlit("100%");
            reveal_strlit("%");
            reveal_strlit("USB");
            reveal_strlit("--");
            assert(label@ =~= battery_label(self.battery));
            assert(label@.len() <= 4) by {
                reveal_with_fuel(decimal, 3);
            }
        }
        let x: i32 = WIDTH - text_width(label.as_str(), 2) - 7;
        self.text(label.as_str(), x, 8, 2, color);
    }

    pub fn update_battery(&mut self, battery: BatteryView)
        requires
            old(self).canvas.wf(),
        ensures
            drew(
                (StickDisplay { battery, ..*old(self) }),
                *final(self),
                seq![rect_layer(82, 0, 53, HEADER_HEIGHT as int, PANEL)] + battery_layers(battery),
            ),
    {
        self.battery = battery;
        self.rect(82, 0, 53, HEADER_HEIGHT, PANEL);
        self.draw_battery();
    }

    fn base_wifi(&mut self, net_color: u16, recording: bool)
        requires
            old(self).canvas.wf(),
        ensures
            drew(*old(self), *final(self), wifi_base(old(self).battery, net_color, recording)),
    {
        self.draw_empty();
        proof {
            reveal_strlit("WIFI");
        }
        self.text("WIFI", 7, 8, 2, TEXT);
        self.rect(64, 18, 3, 4, net_color);
        self.rect(70, 14, 3, 8, net_color);
        self.rect(76, 10, 3, 12, net_color);
        self.draw_battery();
        self.draw_recording_line(recording);
    }

    fn base_usb(&mut self)
        requires
            old(self).canvas.wf(),
        ensures
            drew(*old(self), *final(self), usb_base(old(self).battery)),
    {
        self.draw_empty();
        proof {
            reveal_strlit("USB");
        }
        self.text("USB", 8, 8, 2, TEXT);
        self.rect(56, 18, 18, 3, CYAN);
        self.rect(63, 11, 4, 10, CYAN);
        self.rect(70, 13, 5, 5, CYAN);
        self.draw_battery();
    }

    fn base_bluetooth(&mut self, recording: bool)
        requires
            old(self).canvas.wf(),
        ensures
            drew(*old(self), *final(self), bluetooth_base(old(self).battery, recording)),
    {
        self.draw_empty();
        proof {
            reveal_strlit("BT");
        }
        self.text("BT", 8, 5, 3, TEXT);
        self.draw_battery();
        self.draw_recording_line(recording);
    }

    fn base_setup(&mut self)
        requires
            old(self).canvas.wf(),
        ensures
            drew(*old(self), *final(self), setup_base(old(self).battery)),
    {
        self.draw_empty();
        proof {
            reveal_strlit("SETUP");
        }
        self.text("SETUP", 7, 8, 2, TEXT);
        self.draw_battery();
    }

    fn base_error(&mut self)
        requires
            old(self).canvas.wf(),
        ensures
            drew(*old(self), *final(self), error_base(old(self).battery)),
    {
        self.draw_empty();
        proof {
            reveal_strlit("ERR");
        }
        self.text("ERR", 8, 8, 2, RED);
        self.draw_battery();
    }

    fn base_transport(&mut self, transport: TransportView, recording: bool)
        requires
            old(self).canvas.wf(),
        ensures
            drew(
                *old(self),
                *final(self),
                transport_base(old(self).battery, transport, recording),
            ),
    {
        match transport {
            TransportView::Wifi => self.base_wifi(GREEN, recording),
            TransportView::Bluetooth => self.base_bluetooth(recording),
        }
    }

    fn draw_progress(&mut self, y: i32, color: u16, phase: i32)
        requires
            old(self).canvas.wf(),
            0 <= y <= 1000,
        ensures
            drew(*old(self), *final(self), progress_layers(y as int, color, phase as int)),
    {
        let moved: i32 = if phase < 0 {
            0
        } else if phase > 63 {
            63
        } else {
            phase
        };
        self.rect(18, y, 99, 5, PANEL_3);
        self.rect(18 + moved, y, 36, 5, color);
    }

    fn draw_divider(&mut self, y: i32, color: u16)
        requires
            old(self).canvas.wf(),
            0 <= y <= 1000,
        ensures
            drew(*old(self), *final(self), divider_layers(y as int, color)),
    {
        self.rect(18, y, 99, 1, color);
    }

    fn draw_record_target(&mut self, recording: bool)
        requires
            old(self).canvas.wf(),
        ensures
            drew(*old(self), *final(self), record_target_layers(recording)),
    {
        let cy: i32 = if recording {
            ACTIVE_RECORD_CY
        } else {
            HOME_RECORD_CY
        };
        let outer_radius: i32 = if recording {
            43
        } else {
            48
        };
        let outer: u16 = if recording {
            RED
        } else {
            RED_DARK
        };
        let middle: u16 = if recording {
            RED_SOFT
        } else {
            RED
        };
        self.circle(RECORD_CX, cy, outer_radius, outer);
        self.circle(RECORD_CX, cy, outer_radius - 8, BLACK);
        self.circle(RECORD_CX, cy, outer_radius - 15, middle);
        self.circle(RECORD_CX, cy, outer_radius - 22, BLACK);
        self.circle(RECORD_CX, cy, outer_radius - 27, RED);
    }

    fn draw_level_meter(&mut self, level_percent: u8)
        requires
            old(self).canvas.wf(),
        ensures
            drew(*old(self), *final(self), level_meter_layers(level_percent as int)),
    {
        let level: i32 = if level_percent > 100 {
            100
        } else {
            level_percent as i32
        };
        let active: i32 = (level * 12 + 99) / 100;
        self.rect(9, 161, 117, 40, BLACK);
        proof {
            reveal_strlit("LEVEL");
        }
        self.text("LEVEL", 12, 164, 1, MUTED);
        let ghost before = *self;
        let mut index: i32 = 0;
        while index < 12
            invariant
                0 <= index <= 12,
                drew(before, *self, bar_layers(active as int, index as nat)),
            decreases 12 - index,
        {
            let height: i32 = 6 + index * 2;
            let color: u16 = if index >= active {
                PANEL_3
            } else if index <= 7 {
                GREEN
            } else if index <= 9 {
                AMBER
            } else {
                RED
            };
            self.rect(13 + index * 9, 197 - height, 6, height, color);
            index = index + 1;
        }
    }

    fn draw_round_rect(&mut self, x: i32, y: i32, w: i32, h: i32, radius: i32, color: u16)
        requires
            old(self).canvas.wf(),
            0 <= x <= 500,
            0 <= y <= 500,
            0 <= w <= 400,
            0 <= h <= 400,
            0 <= radius <= 100,
        ensures
            drew(
                *old(self),
                *final(self),
                round_rect_layers(x as int, y as int, w as int, h as int, radius as int, color),
            ),
    {
        let by_width: i32 = if w / 2 < radius {
            w / 2
        } else {
            radius
        };
        let r: i32 = if h / 2 < by_width {
            h / 2
        } else {
            by_width
        };
        if r <= 0 {
            self.rect(x, y, w, h, color);
            return;
        }
        self.rect(x + r, y, w - r * 2, h, color);
        self.rect(x, y + r, w, h - r * 2, color);
        self.circle(x + r, y + r, r, color);
        self.circle(x + w - r - 1, y + r, r, color);
        self.circle(x + r, y + h - r - 1, r, color);
        self.circle(x + w - r - 1, y + h - r - 1, r, color);
    }

    fn draw_buffer_meter(&mut self, queued_frames: usize, max_frames: usize)
        requires
            old(self).canvas.wf(),
            max_frames <= i32::MAX,
            queued_frames * 72 <= i32::MAX || max_frames * 72 <= i32::MAX,
        ensures
            drew(
                *old(self),
                *final(self),
                buffer_meter_layers(queued_frames as int, max_frames as int),
            ),
    {
        let max: usize = if max_frames < 1 {
            1
        } else {
            max_frames
        };
        let queued: usize = if queued_frames > max {
            max
        } else {
            queued_frames
        };
        assert(0 <= queued * 72 / (max as int) <= 72) by (nonlinear_arith)
            requires
                0 <= queued <= max,
                max >= 1,
        ;
        let fill: i32 = (queued as i32 * 72) / max as i32;
        let color: u16 = if queued >= max {
            AMBER
        } else if queued == 0 {
            PANEL_3
        } else {
            CYAN
        };
        self.rect(9, 204, 117, 13, BLACK);
        proof {
            reveal_strlit("BUF");
        }
        self.text("BUF", 12, 206, 1, MUTED);
        self.draw_round_rect(43, 207, 72, 6, 3, PANEL_3);
        if fill > 0 {
            self.draw_round_rect(43, 207, fill, 6, 3, color);
        }
    }

    fn draw_elapsed(&mut self, elapsed_secs: u64)
        requires
            old(self).canvas.wf(),
        ensures
            drew(*old(self), *final(self), elapsed_layers(elapsed_secs as int)),
    {
        let minutes: u8 = if elapsed_secs / 60 > 99 {
            99
        } else {
            (elapsed_secs / 60) as u8
        };
        let seconds: u8 = (elapsed_secs % 60) as u8;
        let mut label = String::new();
        label.push((0x30 + minutes / 10) as char);
        label.push((0x30 + minutes % 10) as char);
        label.push(':');
        label.push((0x30 + seconds / 10) as char);
        label.push((0x30 + seconds % 10) as char);
        proof {
            reveal_strlit(":");
            assert(label@ =~= elapsed_label(elapsed_secs as int));
        }
        self.centered(label.as_str(), 123, 4, TEXT);
    }

    pub fn show_wifi_connecting(&mut self)
        requires
            old(self).canvas.wf(),
        ensures
            drew(*old(self), *final(self), wifi_connecting_screen(old(self).battery)),
    {
        proof {
            reveal_strlit("JOINING");
            reveal_strlit("WIFI");
            reveal_strlit("PLEASE WAIT");
            reveal_strlit("NO SETUP AP");
        }
        self.base_wifi(AMBER, false);
        self.centered("JOINING", 56, 2, AMBER);
        self.centered("WIFI", 88, 3, TEXT);
        self.draw_progress(132, AMBER, 18);
        self.centered("PLEASE WAIT", 176, 1, MUTED);
        self.centered("NO SETUP AP", 221, 1, MUTED);
    }

    pub fn show_ready(&mut self)
        requires
            old(self).canvas.wf(),
        ensures
            drew(*old(self), *final(self), ready_screen(old(self).battery)),
    {
        proof {
            reveal_strlit("TAP");
            reveal_strlit("START");
            reveal_strlit("HOLD A TALK");
        }
        self.base_wifi(GREEN, false);
        self.draw_record_target(false);
        self.centered("TAP", 139, 3, TEXT);
        self.centered("START", 168, 2, RED);
        self.centered("HOLD A TALK", 219, 1, MUTED);
    }

    pub fn show_usb_ready(&mut self)
        requires
            old(self).canvas.wf(),
        ensures
            drew(*old(self), *final(self), usb_ready_screen(old(self).battery)),
    {
        proof {
            reveal_strlit("USB MIC");
            reveal_strlit("B WIFI");
        }
        self.base_usb();
        self.draw_record_target(false);
        self.centered("USB MIC", 143, 2, TEXT);
        self.draw_level_meter(0);
        self.centered("B WIFI", 223, 1, MUTED);
    }

    pub fn show_bluetooth_ready(&mut self)
        requires
            old(self).canvas.wf(),
        ensures
            drew(*old(self), *final(self), bluetooth_ready_screen(old(self).battery)),
    {
        proof {
            reveal_strlit("TAP");
            reveal_strlit("START");
            reveal_strlit("BLUETOOTH");
        }
        self.base_bluetooth(false);
        self.draw_record_target(false);
        self.centered("TAP", 139, 3, TEXT);
        self.centered("START", 168, 2, RED);
        self.centered("BLUETOOTH", 219, 1, MUTED);
    }

    pub fn show_finding_receiver(&mut self, transport: TransportView)
        requires
            old(self).canvas.wf(),
        ensures
            drew(*old(self), *final(self), finding_screen(old(self).battery, transport, 0)),
    {
        self.show_finding_receiver_phase(transport, 0);
    }

    pub fn show_finding_receiver_phase(&mut self, transport: TransportView, phase: usize)
        requires
            old(self).canvas.wf(),
        ensures
            drew(
                *old(self),
                *final(self),
                finding_screen(old(self).battery, transport, phase as int),
            ),
    {
        proof {
            reveal_strlit("FINDING");
            reveal_strlit("RECEIVER");
            reveal_strlit("NETWORK");
            reveal_strlit("WAIT");
        }
        self.base_transport(transport, false);
        self.centered("FINDING", 56, 2, AMBER);
        self.centered("RECEIVER", 88, 2, TEXT);
        self.draw_progress(132, AMBER, progress_phase(phase));
        self.centered("NETWORK", 176, 2, MUTED);
        self.centered("WAIT", 221, 1, MUTED);
    }

    fn draw_code(&mut self, code: Option<u32>)
        requires
            old(self).canvas.wf(),
        ensures
            drew(*old(self), *final(self), code_layers(code)),
    {
        if let Some(code) = code {
            let digits = provision_code_bytes(code);
            let mut label = String::new();
            let mut i: usize = 0;
            assert(ascii_chars(digits@.take(0)) =~= label@);
            while i < digits.len()
                invariant
                    i <= digits@.len(),
                    label@ == ascii_chars(digits@.take(i as int)),
                decreases digits@.len() - i,
            {
                label.push(digits[i] as char);
                assert(ascii_chars(digits@.take(i + 1)) =~= ascii_chars(
                    digits@.take(i as int),
                ).push(digits@[i as int] as char));
                i += 1;
            }
            assert(digits@.take(i as int) =~= digits@);
            assert(label@.len() == 8) by {
                crate::provision::lemma_digits_of((code % 100_000_000) as nat, 8);
            }
            self.centered(label.as_str(), 183, 2, TEXT);
        }
    }

    /// The screen while the setup portal is open: the network to join, and the
    /// code for Bluetooth provisioning if there is one.
    pub fn show_setup_portal(&mut self, ssid: &str, code: Option<u32>)
        requires
            old(self).canvas.wf(),
            ssid@.len() * 6 <= i32::MAX,
        ensures
            drew(*old(self), *final(self), setup_portal_screen(old(self).battery, ssid@, code)),
    {
        proof {
            reveal_strlit("SETUP");
            reveal_strlit("JOIN WIFI");
            reveal_strlit("192.168.71.1");
        }
        self.base_setup();
        self.centered("SETUP", 55, 2, CYAN);
        self.centered("JOIN WIFI", 91, 2, TEXT);
        self.draw_divider(124, CYAN);
        self.centered(ssid, 151, 1, AMBER);
        self.draw_code(code);
        self.centered("192.168.71.1", 221, 1, MUTED);
    }

    pub fn show_setup_saved(&mut self)
        requires
            old(self).canvas.wf(),
        ensures
            drew(*old(self), *final(self), setup_saved_screen(old(self).battery)),
    {
        proof {
            reveal_strlit("OK");
            reveal_strlit("WIFI");
            reveal_strlit("SAVED");
            reveal_strlit("REBOOTING");
        }
        self.base_wifi(GREEN, false);
        self.centered("OK", 58, 3, GREEN);
        self.draw_divider(105, GREEN);
        self.centered("WIFI", 139, 2, TEXT);
        self.centered("SAVED", 166, 2, TEXT);
        self.centered("REBOOTING", 221, 1, MUTED);
    }

    pub fn show_setup_rebooting(&mut self)
        requires
            old(self).canvas.wf(),
        ensures
            drew(*old(self), *final(self), setup_rebooting_screen(old(self).battery)),
    {
        proof {
            reveal_strlit("OK");
            reveal_strlit("MIC");
            reveal_strlit("MODE");
            reveal_strlit("REBOOTING");
        }
        self.base_setup();
        self.centered("OK", 58, 3, CYAN);
        self.draw_divider(105, CYAN);
        self.centered("MIC", 139, 2, TEXT);
        self.centered("MODE", 166, 2, TEXT);
        self.centered("REBOOTING", 221, 1, MUTED);
    }

    fn draw_stop_hint(&mut self, mode: RecordModeView, live_meters: bool)
        requires
            old(self).canvas.wf(),
        ensures
            drew(*old(self), *final(self), stop_hint_layers(mode, live_meters)),
    {
        proof {
            reveal_strlit("STOP");
            reveal_strlit("RELEASE");
            reveal_strlit("A STOP  B OFF");
            reveal_strlit("RELEASE B OFF");
        }
        match mode {
            RecordModeView::Latched => if live_meters {
                self.centered("STOP", 223, 2, MUTED);
            } else {
                self.centered("A STOP  B OFF", 224, 1, MUTED);
            },
            RecordModeView::PushToTalk => if live_meters {
                self.centered("RELEASE", 223, 2, MUTED);
            } else {
                self.centered("RELEASE B OFF", 224, 1, MUTED);
            },
        }
    }

    pub fn show_recording(
        &mut self,
        transport: TransportView,
        elapsed_secs: u64,
        mode: RecordModeView,
        live_meters: bool,
    )
        requires
            old(self).canvas.wf(),
        ensures
            drew(
                *old(self),
                *final(self),
                recording_screen(
                    old(self).battery,
                    transport,
                    elapsed_secs as int,
                    mode,
                    live_meters,
                ),
            ),
    {
        self.base_transport(transport, true);
        self.draw_record_target(true);
        self.draw_elapsed(elapsed_secs);
        if live_meters {
            self.draw_level_meter(0);
            self.draw_buffer_meter(0, 1);
        } else {
            self.rect(9, 161, 117, 56, BLACK);
        }
        self.draw_stop_hint(mode, live_meters);
    }

    pub fn update_recording_time(&mut self, elapsed_secs: u64)
        requires
            old(self).canvas.wf(),
        ensures
            drew(
                *old(self),
                *final(self),
                seq![rect_layer(0, 120, WIDTH as int, 34, BLACK)] + elapsed_layers(
                    elapsed_secs as int,
                ),
            ),
    {
        self.rect(0, 120, WIDTH, 34, BLACK);
        self.draw_elapsed(elapsed_secs);
    }

    pub fn update_level(&mut self, level_percent: u8)
        requires
            old(self).canvas.wf(),
        ensures
            drew(*old(self), *final(self), level_meter_layers(level_percent as int)),
    {
        self.draw_level_meter(level_percent);
    }

    pub fn update_buffer(&mut self, queued_frames: usize, max_frames: usize)
        requires
            old(self).canvas.wf(),
            max_frames <= i32::MAX,
            queued_frames * 72 <= i32::MAX || max_frames * 72 <= i32::MAX,
        ensures
            drew(
                *old(self),
                *final(self),
                buffer_meter_layers(queued_frames as int, max_frames as int),
            ),
    {
        self.draw_buffer_meter(queued_frames, max_frames);
    }

    pub fn show_error(&mut self, line1: &str, line2: &str)
        requires
            old(self).canvas.wf(),
            has_prefix(line1@, "WIFI"@) ==> line2@.len() * 6 <= i32::MAX,
            !has_prefix(line1@, "WIFI"@) ==> line1@.len() * 12 <= i32::MAX,
        ensures
            drew(*old(self), *final(self), error_screen(old(self).battery, line1@, line2@)),
    {
        let chars = chars_of(line1);
        let prefix = chars_of("WIFI");
        let wifi_fail = starts_with(chars.as_slice(), prefix.as_slice());
        proof {
            reveal_strlit("!");
            reveal_strlit("WIFI");
            reveal_strlit("FAIL");
            reveal_strlit("ERROR");
            reveal_strlit("PRESS AGAIN");
        }
        if wifi_fail {
            self.base_wifi(AMBER, false);
            self.centered("!", 58, 3, RED);
            self.draw_divider(105, RED);
            self.centered("WIFI", 139, 2, TEXT);
            self.centered("FAIL", 166, 2, TEXT);
            self.centered(line2, 221, 1, MUTED);
        } else {
            self.base_error();
            self.centered("!", 58, 3, RED);
            self.draw_divider(105, RED);
            self.centered(line1, 139, 2, TEXT);
            self.centered("ERROR", 166, 2, TEXT);
            self.centered("PRESS AGAIN", 221, 1, MUTED);
        }
    }
}

/// The time is shown as two digits of minutes, a colon and two digits of seconds, which
/// together are the time; from a hundred minutes on, the minutes are ninety-nine.
pub proof fn law_the_clock_shows_the_time(secs: int)
    requires
        0 <= secs,
    ensures
        ({
            let label = elapsed_label(secs);
            let minutes = decimal_value(label.take(2)) as int;
            let seconds = decimal_value(label.skip(3)) as int;
            &&& label.len() == 5
            &&& label[2] == ':'
            &&& all_digits(label.take(2))
            &&& all_digits(label.skip(3))
            &&& 0 <= seconds < 60
            &&& secs < 6_000 ==> 60 * minutes + seconds == secs
            &&& secs >= 6_000 ==> minutes == 99 && (secs - seconds) % 60 == 0
        }),
{
    let label = elapsed_label(secs);
    reveal_strlit(":");
    let minutes = if secs / 60 > 99 {
        99
    } else {
        secs / 60
    };
    assert(label.take(2) =~= two_digits(minutes));
    assert(label.skip(3) =~= two_digits(secs % 60));
    lemma_two_digits(minutes);
    lemma_two_digits(secs % 60);
}

proof fn lemma_two_digits(n: int)
    requires
        0 <= n < 100,
    ensures
        all_digits(two_digits(n)),
        decimal_value(two_digits(n)) == n,
{
    let digits = two_digits(n);
    assert(digits.drop_last().drop_last() =~= Seq::<char>::empty());
    reveal_with_fuel(decimal_value, 3);
}

/// The battery's label is its charge and a percent sign, and the charge is never more
/// than full; without a charge it says that the power comes over USB, or nothing.
pub proof fn law_the_label_shows_the_charge(percent: u8, external_power: bool)
    ensures
        ({
            let label = battery_label(BatteryView { percent: Some(percent), external_power });
            &&& label.len() > 1
            &&& label[label.len() - 1] == '%'
            &&& all_digits(label.drop_last())
            &&& decimal_value(label.drop_last()) == if percent < 100 {
                percent as nat
            } else {
                100
            }
        }),
        battery_label(BatteryView { percent: None, external_power }) == if external_power {
            "USB"@
        } else {
            "--"@
        },
{
    let label = battery_label(BatteryView { percent: Some(percent), external_power });
    reveal_strlit("%");
    reveal_strlit("100%");
    if percent < 100 {
        law_decimal_round_trip(percent as nat);
        assert(label.drop_last() =~= decimal(percent as nat));
    } else {
        assert(label.drop_last() =~= seq!['1', '0', '0']);
        let digits = label.drop_last();
        assert(digits.drop_last().drop_last().drop_last() =~= Seq::<char>::empty());
        reveal_with_fuel(decimal_value, 4);
    }
}

/// On battery a charge of at most fifteen percent is red and one of at most thirty-five
/// amber; on external power it is green, and an unknown one is muted.
pub proof fn law_colours_warn_of_a_low_charge(percent: u8)
    ensures
        ({
            let on_battery = battery_color(
                BatteryView { percent: Some(percent), external_power: false },
            );
            &&& on_battery == RED <==> percent <= 15
            &&& on_battery == AMBER <==> 15 < percent <= 35
            &&& on_battery == TEXT <==> percent > 35
        }),
        battery_color(BatteryView { percent: Some(percent), external_power: true }) == GREEN,
        battery_color(BatteryView { percent: None, external_power: true }) == MUTED,
        battery_color(BatteryView { percent: None, external_power: false }) == MUTED,
{
}

/// A level lights as many of the twelve bars as it takes to cover it, each worth a
/// twelfth: none for silence, all from a hundred percent on.
pub proof fn law_a_level_lights_its_bars(level: int, index: int)
    requires
        0 <= level,
        0 <= index < 12,
    ensures
        ({
            let active = active_bars(level);
            &&& 0 <= active <= 12
            &&& level <= 100 ==> 100 * active >= 12 * level && 100 * (active - 1) < 12 * level
            &&& level >= 100 ==> active == 12
            &&& active_bars(0) == 0
            &&& bar_color(index, active) != PANEL_3 <==> index < active
            &&& bar_color(index, active) == RED <==> 10 <= index < active
            &&& bar_color(index, active) == AMBER <==> 8 <= index < active && index < 10
        }),
        bar_layers(active_bars(level), 12).len() == 12,
        bar_layers(active_bars(level), 12)[index].color == bar_color(index, active_bars(level)),
{
    lemma_bars(active_bars(level), 12, index);
}

proof fn lemma_bars(active: int, n: nat, index: int)
    requires
        0 <= index < n,
    ensures
        bar_layers(active, n).len() == n,
        bar_layers(active, n)[index].color == bar_color(index, active),
        bar_layers(active, n)[index] == rect_layer(
            13 + index * 9,
            191 - index * 2,
            6,
            6 + index * 2,
            bar_color(index, active),
        ),
    decreases n,
{
    if n > 1 && index < n - 1 {
        lemma_bars(active, (n - 1) as nat, index);
    }
    lemma_bars_len(active, (n - 1) as nat);
}

proof fn lemma_bars_len(active: int, n: nat)
    ensures
        bar_layers(active, n).len() == n,
    decreases n,
{
    if n > 0 {
        lemma_bars_len(active, (n - 1) as nat);
    }
}

/// The bars stand on one line, with a gap between two, and grow to the right.
pub proof fn law_the_bars_rise_to_the_right(active: int, i: int, j: int, px: int, py: int)
    requires
        0 <= i < j < 12,
    ensures
        ({
            let bars = bar_layers(active, 12);
            &&& (bars[i].shape)(px, py) ==> !(bars[j].shape)(px, py)
            &&& (bars[i].shape)(px, py) ==> (bars[j].shape)(px + 9 * (j - i), py)
            &&& (bars[i].shape)(px, py) ==> py < 197
            &&& (bars[j].shape)(13 + 9 * j, 191 - 2 * j) && !(bars[i].shape)(
                13 + 9 * i,
                191 - 2 * j,
            )
        }),
{
    lemma_bars(active, 12, i);
    lemma_bars(active, 12, j);
}

/// The search's progress bar stays inside its track, and moves on with each step until
/// it starts over.
pub proof fn law_progress_moves_on(step: int)
    requires
        0 <= step,
    ensures
        0 <= phase_of(step) <= 63,
        phase_of(step + 1) == phase_of(step) + 9 || phase_of(step + 1) == 0,
        phase_of(step + 8) == phase_of(step),
{
}

/// External power or the setting makes the screen bright, and nothing else does; it is
/// never dark of itself.
pub proof fn law_brightness_follows_power_and_setting(external_power: bool, settings: AppSettings)
    ensures
        brightness_for(external_power, settings) == Brightness::Full <==> external_power
            || settings.battery_brightness == BatteryBrightness::Full,
        brightness_for(external_power, settings) != Brightness::Off,
        Brightness::Off.percent() == 0,
        Brightness::Full.percent() == 100,
        0 < Brightness::Dim.percent() < 100,
        Brightness::Dim.percent() == 18,
{
}

/// The panel is reset before all else, wakes up before it is set up, and takes sixteen
/// bits for a point.
pub proof fn law_the_panel_is_set_up_in_order()
    ensures
        setup_sequence().len() == 5,
        setup_sequence()[0] == (0x01u8, Seq::<u8>::empty(), 150u32),
        setup_sequence()[1] == (0x11u8, Seq::<u8>::empty(), 120u32),
        setup_sequence().contains((0x3au8, seq![0x55u8], 0u32)),
        setup_sequence().contains((0x36u8, seq![0u8], 0u32)),
        setup_sequence().contains((0x21u8, Seq::<u8>::empty(), 0u32)),
{
    assert(setup_sequence()[2] == (0x3au8, seq![0x55u8], 0u32));
    assert(setup_sequence()[3] == (0x36u8, seq![0u8], 0u32));
    assert(setup_sequence()[4] == (0x21u8, Seq::<u8>::empty(), 0u32));
}

/// The bar of the buffer meter is as long as the buffer is full, to the pixel below: it
/// is empty with nothing queued and whole with as much queued as there is room for, or
/// more.
pub proof fn law_the_buffer_bar_is_as_long_as_it_is_full(queued: int, max: int)
    requires
        0 <= queued,
        1 <= max,
    ensures
        0 <= buffer_fill(queued, max) <= 72,
        queued >= max <==> buffer_fill(queued, max) == 72,
        queued == 0 ==> buffer_fill(queued, max) == 0,
        queued <= max ==> buffer_fill(queued, max) * max <= 72 * queued < (buffer_fill(queued, max)
            + 1) * max,
        queued >= max ==> buffer_color(queued, max) == AMBER,
        0 < queued < max ==> buffer_color(queued, max) == CYAN,
        buffer_fill(queued, 0) == buffer_fill(queued, 1),
        buffer_color(queued, 0) == buffer_color(queued, 1),
{
    let fill = buffer_fill(queued, max);
    let shown = if queued > max {
        max
    } else {
        queued
    };
    assert(fill == shown * 72 / max);
    assert(fill * max <= shown * 72 < (fill + 1) * max) by (nonlinear_arith)
        requires
            fill == shown * 72 / max,
            max >= 1,
            shown >= 0,
    ;
    assert(0 <= fill <= 72 && (shown == max <==> fill == 72)) by (nonlinear_arith)
        requires
            fill * max <= shown * 72 < (fill + 1) * max,
            0 <= shown <= max,
            max >= 1,
    ;
    assert(0int * 72 / max == 0) by (nonlinear_arith)
        requires
            max >= 1,
    ;
}

/// A rounded rectangle covers the rectangle but for its corners and stays within it, but
/// for a pixel where the corners make up a whole side.
pub proof fn law_a_rounded_rectangle_keeps_its_bounds(
    x: int,
    y: int,
    w: int,
    h: int,
    radius: int,
    color: u16,
    i: int,
    px: int,
    py: int,
)
    requires
        w >= 1,
        h >= 1,
        radius >= 0,
    ensures
        ({
            let layers = round_rect_layers(x, y, w, h, radius, color);
            &&& 0 <= i < layers.len() && (layers[i].shape)(px, py) ==> rect(
                x - 1,
                y - 1,
                w + 2,
                h + 2,
            )(px, py)
            &&& 2 * radius < w && 2 * radius < h && 0 <= i < layers.len() && (layers[i].shape)(
                px,
                py,
            ) ==> rect(x, y, w, h)(px, py)
            &&& 0 <= i < layers.len() ==> layers[i].color == color
            &&& rect(x, y, w, h)(px, py) && (x + radius <= px < x + w - radius || y + radius <= py
                < y + h - radius) ==> exists|k: int|
                0 <= k < layers.len() && (#[trigger] layers[k].shape)(px, py)
        }),
{
    let layers = round_rect_layers(x, y, w, h, radius, color);
    let by_width = if w / 2 < radius {
        w / 2
    } else {
        radius
    };
    let r = if h / 2 < by_width {
        h / 2
    } else {
        by_width
    };
    if r > 0 {
        lemma_disc_bounds(x + r, y + r, r, px, py);
        lemma_disc_bounds(x + w - r - 1, y + r, r, px, py);
        lemma_disc_bounds(x + r, y + h - r - 1, r, px, py);
        lemma_disc_bounds(x + w - r - 1, y + h - r - 1, r, px, py);
        assert(layers[0] == rect_layer(x + r, y, w - r * 2, h, color));
        assert(layers[1] == rect_layer(x, y + r, w, h - r * 2, color));
        assert(layers[2] == disc_layer(x + r, y + r, r, color));
        assert(layers[3] == disc_layer(x + w - r - 1, y + r, r, color));
        assert(layers[4] == disc_layer(x + r, y + h - r - 1, r, color));
        assert(layers[5] == disc_layer(x + w - r - 1, y + h - r - 1, r, color));
        assert(layers.len() == 6);
        if rect(x, y, w, h)(px, py) && x + radius <= px < x + w - radius {
            assert((layers[0].shape)(px, py));
        }
        if rect(x, y, w, h)(px, py) && y + radius <= py < y + h - radius {
            assert((layers[1].shape)(px, py));
        }
    } else {
        assert(layers[0] == rect_layer(x, y, w, h, color));
        if rect(x, y, w, h)(px, py) {
            assert((layers[0].shape)(px, py));
        }
    }
}

proof fn lemma_disc_bounds(cx: int, cy: int, radius: int, px: int, py: int)
    requires
        radius >= 0,
    ensures
        disc(cx, cy, radius)(px, py) ==> cx - radius <= px <= cx + radius && cy - radius <= py <= cy
            + radius,
{
    if disc(cx, cy, radius)(px, py) {
        let dx = px - cx;
        let dy = py - cy;
        assert(-radius <= dx <= radius && -radius <= dy <= radius) by (nonlinear_arith)
            requires
                radius >= 0,
                dx * dx + dy * dy <= radius * radius,
        ;
    }
}

/// An error of the network is shown under the mark of the network with what is said of
/// it, and any other under its own name.
pub proof fn law_errors_are_shown_for_what_they_are(
    battery: BatteryView,
    line1: Seq<char>,
    line2: Seq<char>,
    more: Seq<char>,
)
    ensures
        ({
            let shown = error_screen(battery, "WIFI"@ + more, line2);
            let base = wifi_base(battery, AMBER, false);
            let told = centered_layers(line2, 221, 1, MUTED);
            &&& shown.take(base.len() as int) == base
            &&& shown.skip(shown.len() - told.len()) == told
        }),
        line1.len() < 4 || line1.take(4) != "WIFI"@ ==> ({
            let shown = error_screen(battery, line1, line2);
            let base = error_base(battery) + centered_layers("!"@, 58, 3, RED) + divider_layers(
                105,
                RED,
            ) + centered_layers(line1, 139, 2, TEXT);
            shown.take(base.len() as int) == base
        }),
{
    reveal_strlit("WIFI");
    let line = "WIFI"@ + more;
    assert(line.take(4) =~= "WIFI"@);
    assert(has_prefix(line, "WIFI"@));
    let shown = error_screen(battery, line, line2);
    let base = wifi_base(battery, AMBER, false);
    let told = centered_layers(line2, 221, 1, MUTED);
    assert(shown.take(base.len() as int) =~= base);
    assert(shown.skip(shown.len() - told.len()) =~= told);
    if line1.len() < 4 || line1.take(4) != "WIFI"@ {
        assert(!has_prefix(line1, "WIFI"@)) by {
            if has_prefix(line1, "WIFI"@) {
                assert(line1.take(4) =~= "WIFI"@);
            }
        }
        let shown = error_screen(battery, line1, line2);
        let base = error_base(battery) + centered_layers("!"@, 58, 3, RED) + divider_layers(105, RED)
            + centered_layers(line1, 139, 2, TEXT);
        assert(shown.take(base.len() as int) =~= base);
    }
}

/// The hint says to release the button where that ends the recording, and speaks of
/// turning the screen off only where the meters are off; it always ends the screen.
pub proof fn law_the_hint_says_how_to_stop(
    battery: BatteryView,
    transport: TransportView,
    elapsed_secs: int,
    mode: RecordModeView,
    live_meters: bool,
)
    ensures
        ({
            let hint = match mode {
                RecordModeView::Latched => if live_meters {
                    "STOP"@
                } else {
                    "A STOP  B OFF"@
                },
                RecordModeView::PushToTalk => if live_meters {
                    "RELEASE"@
                } else {
                    "RELEASE B OFF"@
                },
            };
            let scale: int = if live_meters {
                2
            } else {
                1
            };
            let y: int = if live_meters {
                223
            } else {
                224
            };
            let shown = recording_screen(battery, transport, elapsed_secs, mode, live_meters);
            let told = centered_layers(hint, y, scale, MUTED);
            &&& shown.skip(shown.len() - told.len()) == told
            &&& shown.take(transport_base(battery, transport, true).len() as int)
                == transport_base(battery, transport, true)
        }),
{
    let shown = recording_screen(battery, transport, elapsed_secs, mode, live_meters);
    let told = stop_hint_layers(mode, live_meters);
    let base = transport_base(battery, transport, true);
    assert(shown.skip(shown.len() - told.len()) =~= told);
    assert(shown.take(base.len() as int) =~= base);
}

/// The label of the battery ends seven pixels from the right edge, however long it is.
pub proof fn law_the_battery_label_ends_at_the_right(battery: BatteryView, x: int)
    requires
        x + width_of(battery_label(battery).len() as int, 2) + 7 == WIDTH,
    ensures
        battery_layers(battery) == text_layers(
            battery_label(battery),
            x,
            8,
            2,
            battery_color(battery),
        ),
{
}

/// A recording begins with empty meters, however much the buffer can hold.
pub proof fn law_meters_begin_empty(max_frames: int)
    requires
        max_frames >= 1,
    ensures
        meter_layers(true) == level_meter_layers(0) + buffer_meter_layers(0, max_frames),
        active_bars(0) == 0,
        buffer_fill(0, max_frames) == 0,
{
    law_the_buffer_bar_is_as_long_as_it_is_full(0, max_frames);
    law_the_buffer_bar_is_as_long_as_it_is_full(0, 1);
    assert(buffer_color(0, max_frames) == buffer_color(0, 1));
}

/// The code that the setup screen shows is eight digits that spell the code.
pub proof fn law_the_code_is_shown_in_full(code: u32)
    requires
        code < 100_000_000,
    ensures
        exists|text: Seq<char>|
            text.len() == 8 && all_digits(text) && decimal_value(text) == code && code_layers(
                Some(code),
            ) == #[trigger] centered_layers(text, 183, 2, TEXT),
        code_layers(Some(code)).len() == 8,
        code_layers(None).len() == 0,
{
    law_the_digits_spell_the_code(code);
    let text = ascii_chars(code_digits(code));
    assert(code_layers(Some(code)) == centered_layers(text, 183, 2, TEXT));
}

/// Over either transport a recording is marked, and nothing else of the head of the
/// screen changes with it.
pub proof fn law_a_recording_is_marked(battery: BatteryView, transport: TransportView)
    ensures
        transport_base(battery, transport, true) == transport_base(battery, transport, false)
            + recording_layers(true),
        recording_layers(true).len() == 1 && recording_layers(false).len() == 0,
{
    assert(transport_base(battery, transport, true) =~= transport_base(battery, transport, false)
        + recording_layers(true));
}

} // verus!
