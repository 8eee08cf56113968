use m5mic::canvas::{glyph, rgb565, text_width, Canvas, Fill};
use m5mic::display::{
    display_brightness_for_power, progress_phase, setup_commands, Brightness, RecordModeView,
    StickDisplay, TransportView, AMBER, BLACK, CYAN, GREEN, LINE, MUTED, PANEL, PANEL_3, RED,
    RED_DARK, RED_SOFT, TEXT,
};
use m5mic::power::BatteryView;
use m5mic::wifi_config::{AppSettings, BatteryBrightness};

struct Paper {
    points: Vec<Option<u16>>,
}

impl Paper {
    fn new() -> Paper {
        Paper {
            points: vec![None; 135 * 240],
        }
    }

    fn of(fills: &[Fill]) -> Paper {
        let mut paper = Paper::new();
        for fill in fills {
            assert!(fill.x0 < fill.x1 && fill.x1 <= 135);
            assert!(fill.y0 < fill.y1 && fill.y1 <= 240);
            for y in fill.y0..fill.y1 {
                for x in fill.x0..fill.x1 {
                    paper.points[y as usize * 135 + x as usize] = Some(fill.color);
                }
            }
        }
        paper
    }

    fn rect(&mut self, x: i32, y: i32, w: i32, h: i32, color: u16) {
        for py in y.max(0)..(y + h).min(240) {
            for px in x.max(0)..(x + w).min(135) {
                self.points[(py * 135 + px) as usize] = Some(color);
            }
        }
    }

    fn disc(&mut self, cx: i32, cy: i32, radius: i32, color: u16) {
        for y in 0..240 {
            for x in 0..135 {
                if (x - cx) * (x - cx) + (y - cy) * (y - cy) <= radius * radius {
                    self.rect(x, y, 1, 1, color);
                }
            }
        }
    }

    fn text(&mut self, text: &str, x: i32, y: i32, scale: i32, color: u16) {
        let mut cursor = x;
        for ch in text.chars() {
            for (col, bits) in glyph(ch).iter().enumerate() {
                for row in 0..7 {
                    if bits & (1 << row) != 0 {
                        let px = cursor + col as i32 * scale;
                        self.rect(px, y + row * scale, scale, scale, color);
                    }
                }
            }
            cursor += 6 * scale;
        }
    }

    fn centered(&mut self, text: &str, y: i32, scale: i32, color: u16) {
        let width = text.chars().count() as i32 * 6 * scale - scale;
        self.text(text, (135 - width) / 2, y, scale, color);
    }

    fn frame(&mut self) {
        self.rect(0, 0, 135, 240, BLACK);
        self.rect(0, 0, 135, 31, PANEL);
        self.rect(0, 31, 135, 1, LINE);
    }

    fn bars(&mut self, color: u16) {
        self.rect(64, 18, 3, 4, color);
        self.rect(70, 14, 3, 8, color);
        self.rect(76, 10, 3, 12, color);
    }

    fn battery(&mut self, label: &str, color: u16) {
        let x = 135 - (label.len() as i32 * 12 - 2) - 7;
        self.text(label, x, 8, 2, color);
    }

    fn target(&mut self, cy: i32, outer: i32, outer_color: u16, middle_color: u16) {
        self.disc(67, cy, outer, outer_color);
        self.disc(67, cy, outer - 8, BLACK);
        self.disc(67, cy, outer - 15, middle_color);
        self.disc(67, cy, outer - 22, BLACK);
        self.disc(67, cy, outer - 27, RED);
    }

    fn level(&mut self, active: i32) {
        self.rect(9, 161, 117, 40, BLACK);
        self.text("LEVEL", 12, 164, 1, MUTED);
        for index in 0..12 {
            let height = 6 + index * 2;
            let color = match index {
                _ if index >= active => PANEL_3,
                0..=7 => GREEN,
                8..=9 => AMBER,
                _ => RED,
            };
            self.rect(13 + index * 9, 197 - height, 6, height, color);
        }
    }

    fn rounded(&mut self, x: i32, y: i32, w: i32, h: i32, radius: i32, color: u16) {
        let r = radius.min(w / 2).min(h / 2).max(0);
        if r == 0 {
            return self.rect(x, y, w, h, color);
        }
        self.rect(x + r, y, w - 2 * r, h, color);
        self.rect(x, y + r, w, h - 2 * r, color);
        self.disc(x + r, y + r, r, color);
        self.disc(x + w - r - 1, y + r, r, color);
        self.disc(x + r, y + h - r - 1, r, color);
        self.disc(x + w - r - 1, y + h - r - 1, r, color);
    }

    fn buffer(&mut self, fill: i32, color: u16) {
        self.rect(9, 204, 117, 13, BLACK);
        self.text("BUF", 12, 206, 1, MUTED);
        self.rounded(43, 207, 72, 6, 3, PANEL_3);
        if fill > 0 {
            self.rounded(43, 207, fill, 6, 3, color);
        }
    }
}

fn shown(draw: impl FnOnce(&mut StickDisplay)) -> Paper {
    let mut display = StickDisplay::new();
    draw(&mut display);
    Paper::of(&display.canvas.take())
}

fn view(percent: Option<u8>, external_power: bool) -> BatteryView {
    BatteryView {
        percent,
        external_power,
    }
}

#[test]
fn colours_have_sixteen_bits() {
    assert_eq!(rgb565(255, 255, 255), 0xffff);
    assert_eq!(rgb565(8, 4, 8), 0x0821);
    for (color, (r, g, b)) in [
        (BLACK, (3, 6, 14)),
        (PANEL, (11, 17, 29)),
        (PANEL_3, (28, 39, 62)),
        (TEXT, (238, 242, 255)),
        (MUTED, (126, 143, 166)),
        (GREEN, (44, 214, 125)),
        (CYAN, (64, 196, 255)),
        (AMBER, (252, 176, 69)),
        (RED, (239, 46, 70)),
        (RED_SOFT, (150, 27, 49)),
        (RED_DARK, (66, 13, 27)),
        (LINE, (36, 50, 78)),
    ] {
        assert_eq!(rgb565(r, g, b), color);
    }
}

#[test]
fn glyphs_are_five_columns() {
    assert_eq!(glyph('A'), [0x7e, 0x11, 0x11, 0x11, 0x7e]);
    assert_eq!(glyph('a'), glyph('A'));
    assert_eq!(glyph('0'), [0x3e, 0x51, 0x49, 0x45, 0x3e]);
    assert_eq!(glyph('9'), [0x06, 0x49, 0x49, 0x29, 0x1e]);
    assert_eq!(glyph('Z'), [0x61, 0x51, 0x49, 0x45, 0x43]);
    assert_eq!(glyph('%'), [0x23, 0x13, 0x08, 0x64, 0x62]);
    assert_eq!(glyph(' '), [0; 5]);
    assert_eq!(glyph('?'), [0x7f, 0x41, 0x5d, 0x41, 0x7f]);
    assert_eq!(glyph('\u{e9}'), glyph('?'));
    assert_eq!(text_width("ABC", 2), 34);
    assert_eq!(text_width("", 3), -3);
}

#[test]
fn rectangles_are_cut_to_the_panel() {
    let mut canvas = Canvas::new();
    canvas.fill_rect(-5, 230, 10, 100, 7);
    canvas.fill_rect(135, 0, 5, 5, 8);
    canvas.fill_rect(0, 0, 0, 5, 8);
    canvas.fill_rect(0, 0, -5, 5, 8);
    let fills = canvas.take();
    let fill = Fill {
        x0: 0,
        y0: 230,
        x1: 5,
        y1: 240,
        color: 7,
    };
    assert_eq!(fills, [fill]);
    assert_eq!(fill.column_window(), [0, 52, 0, 56]);
    assert_eq!(fill.row_window(), [1, 14, 1, 23]);
    assert_eq!(fill.row_bytes(), [0, 7, 0, 7, 0, 7, 0, 7, 0, 7]);
    assert_eq!(fill.rows(), 10);
    assert!(canvas.take().is_empty());
}

#[test]
fn shapes_cover_their_points() {
    for (cx, cy, radius) in [(60, 60, 0), (60, 60, 1), (20, 230, 33), (-4, 10, 9), (60, 60, -3)] {
        let mut canvas = Canvas::new();
        canvas.fill_circle(cx, cy, radius, 5);
        let mut expected = Paper::new();
        if radius >= 0 {
            expected.disc(cx, cy, radius, 5);
        }
        assert!(Paper::of(&canvas.take()).points == expected.points);
    }
    for scale in 1..6 {
        let mut canvas = Canvas::new();
        canvas.draw_text("M5 %!", 3, 17, scale, 6);
        let mut expected = Paper::new();
        expected.text("M5 %!", 3, 17, scale, 6);
        assert!(Paper::of(&canvas.take()).points == expected.points);
    }
    let mut canvas = Canvas::new();
    canvas.draw_centered("A LINE THAT IS TOO LONG FOR THE PANEL", 9, 1, 6);
    let mut expected = Paper::new();
    expected.centered("A LINE THAT IS TOO LONG FOR THE PANEL", 9, 1, 6);
    assert!(Paper::of(&canvas.take()).points == expected.points);
}

#[test]
fn the_ready_screens_show_the_mode() {
    let wifi = shown(|display| display.show_ready());
    let mut paper = Paper::new();
    paper.frame();
    paper.text("WIFI", 7, 8, 2, TEXT);
    paper.bars(GREEN);
    paper.battery("--", MUTED);
    paper.target(82, 48, RED_DARK, RED);
    paper.centered("TAP", 139, 3, TEXT);
    paper.centered("START", 168, 2, RED);
    paper.centered("HOLD A TALK", 219, 1, MUTED);
    assert!(wifi.points == paper.points);

    let usb = shown(|display| display.show_usb_ready());
    let mut paper = Paper::new();
    paper.frame();
    paper.text("USB", 8, 8, 2, TEXT);
    paper.rect(56, 18, 18, 3, CYAN);
    paper.rect(63, 11, 4, 10, CYAN);
    paper.rect(70, 13, 5, 5, CYAN);
    paper.battery("--", MUTED);
    paper.target(82, 48, RED_DARK, RED);
    paper.centered("USB MIC", 143, 2, TEXT);
    paper.level(0);
    paper.centered("B WIFI", 223, 1, MUTED);
    assert!(usb.points == paper.points);

    let bluetooth = shown(|display| display.show_bluetooth_ready());
    let mut paper = Paper::new();
    paper.frame();
    paper.text("BT", 8, 5, 3, TEXT);
    paper.battery("--", MUTED);
    paper.target(82, 48, RED_DARK, RED);
    paper.centered("TAP", 139, 3, TEXT);
    paper.centered("START", 168, 2, RED);
    paper.centered("BLUETOOTH", 219, 1, MUTED);
    assert!(bluetooth.points == paper.points);
}

#[test]
fn the_waiting_screens_show_progress() {
    let connecting = shown(|display| display.show_wifi_connecting());
    let mut paper = Paper::new();
    paper.frame();
    paper.text("WIFI", 7, 8, 2, TEXT);
    paper.bars(AMBER);
    paper.battery("--", MUTED);
    paper.centered("JOINING", 56, 2, AMBER);
    paper.centered("WIFI", 88, 3, TEXT);
    paper.rect(18, 132, 99, 5, PANEL_3);
    paper.rect(36, 132, 36, 5, AMBER);
    paper.centered("PLEASE WAIT", 176, 1, MUTED);
    paper.centered("NO SETUP AP", 221, 1, MUTED);
    assert!(connecting.points == paper.points);

    let finding = shown(|display| {
        display.show_finding_receiver(TransportView::Wifi);
        display.show_finding_receiver_phase(TransportView::Bluetooth, 13);
    });
    let mut paper = Paper::new();
    paper.frame();
    paper.text("BT", 8, 5, 3, TEXT);
    paper.battery("--", MUTED);
    paper.centered("FINDING", 56, 2, AMBER);
    paper.centered("RECEIVER", 88, 2, TEXT);
    paper.rect(18, 132, 99, 5, PANEL_3);
    paper.rect(18 + 45, 132, 36, 5, AMBER);
    paper.centered("NETWORK", 176, 2, MUTED);
    paper.centered("WAIT", 221, 1, MUTED);
    assert!(finding.points == paper.points);
    assert_eq!(progress_phase(7), 63);
    assert_eq!(progress_phase(8), 0);
}

#[test]
fn the_setup_screens_show_where_to_go() {
    let portal = shown(|display| display.show_setup_portal("M5Mic-0A1B", None));
    let mut paper = Paper::new();
    paper.frame();
    paper.text("SETUP", 7, 8, 2, TEXT);
    paper.battery("--", MUTED);
    paper.centered("SETUP", 55, 2, CYAN);
    paper.centered("JOIN WIFI", 91, 2, TEXT);
    paper.rect(18, 124, 99, 1, CYAN);
    paper.centered("M5Mic-0A1B", 151, 1, AMBER);
    paper.centered("192.168.71.1", 221, 1, MUTED);
    assert!(portal.points == paper.points);

    let with_code = shown(|display| display.show_setup_portal("M5Mic-0A1B", Some(1_234_567)));
    paper.centered("01234567", 183, 2, TEXT);
    assert!(with_code.points == paper.points);

    let saved = shown(|display| display.show_setup_saved());
    let mut paper = Paper::new();
    paper.frame();
    paper.text("WIFI", 7, 8, 2, TEXT);
    paper.bars(GREEN);
    paper.battery("--", MUTED);
    paper.centered("OK", 58, 3, GREEN);
    paper.rect(18, 105, 99, 1, GREEN);
    paper.centered("WIFI", 139, 2, TEXT);
    paper.centered("SAVED", 166, 2, TEXT);
    paper.centered("REBOOTING", 221, 1, MUTED);
    assert!(saved.points == paper.points);

    let rebooting = shown(|display| display.show_setup_rebooting());
    let mut paper = Paper::new();
    paper.frame();
    paper.text("SETUP", 7, 8, 2, TEXT);
    paper.battery("--", MUTED);
    paper.centered("OK", 58, 3, CYAN);
    paper.rect(18, 105, 99, 1, CYAN);
    paper.centered("MIC", 139, 2, TEXT);
    paper.centered("MODE", 166, 2, TEXT);
    paper.centered("REBOOTING", 221, 1, MUTED);
    assert!(rebooting.points == paper.points);
}

#[test]
fn the_recording_screen_shows_time_and_meters() {
    let live = shown(|display| {
        display.show_recording(TransportView::Wifi, 61, RecordModeView::Latched, true)
    });
    let mut paper = Paper::new();
    paper.frame();
    paper.text("WIFI", 7, 8, 2, TEXT);
    paper.bars(GREEN);
    paper.battery("--", MUTED);
    paper.rect(0, 32, 135, 2, RED_DARK);
    paper.target(78, 43, RED, RED_SOFT);
    paper.centered("01:01", 123, 4, TEXT);
    paper.level(0);
    paper.buffer(0, PANEL_3);
    paper.centered("STOP", 223, 2, MUTED);
    assert!(live.points == paper.points);

    let saving = shown(|display| {
        display.show_recording(
            TransportView::Bluetooth,
            100 * 60 + 7,
            RecordModeView::PushToTalk,
            false,
        )
    });
    let mut paper = Paper::new();
    paper.frame();
    paper.text("BT", 8, 5, 3, TEXT);
    paper.battery("--", MUTED);
    paper.rect(0, 32, 135, 2, RED_DARK);
    paper.target(78, 43, RED, RED_SOFT);
    paper.centered("99:07", 123, 4, TEXT);
    paper.rect(9, 161, 117, 56, BLACK);
    paper.centered("RELEASE B OFF", 224, 1, MUTED);
    assert!(saving.points == paper.points);
}

#[test]
fn meters_are_drawn_over() {
    for (level, active) in [(0, 0), (1, 1), (50, 6), (67, 9), (100, 12), (200, 12)] {
        let mut paper = Paper::new();
        paper.level(active);
        assert!(shown(|display| display.update_level(level)).points == paper.points);
    }
    for (queued, max, fill, color) in [
        (0, 8, 0, PANEL_3),
        (1, 8, 9, CYAN),
        (7, 8, 63, CYAN),
        (8, 8, 72, AMBER),
        (99, 8, 72, AMBER),
        (1, 0, 72, AMBER),
        (1, 50, 1, CYAN),
    ] {
        let mut paper = Paper::new();
        paper.buffer(fill, color);
        assert!(shown(|display| display.update_buffer(queued, max)).points == paper.points);
    }
    let time = shown(|display| display.update_recording_time(599));
    let mut paper = Paper::new();
    paper.rect(0, 120, 135, 34, BLACK);
    paper.centered("09:59", 123, 4, TEXT);
    assert!(time.points == paper.points);
}

#[test]
fn errors_are_shown() {
    let wifi = shown(|display| display.show_error("WIFI FAIL", "HOLD B SETUP"));
    let mut paper = Paper::new();
    paper.frame();
    paper.text("WIFI", 7, 8, 2, TEXT);
    paper.bars(AMBER);
    paper.battery("--", MUTED);
    paper.centered("!", 58, 3, RED);
    paper.rect(18, 105, 99, 1, RED);
    paper.centered("WIFI", 139, 2, TEXT);
    paper.centered("FAIL", 166, 2, TEXT);
    paper.centered("HOLD B SETUP", 221, 1, MUTED);
    assert!(wifi.points == paper.points);

    let stream = shown(|display| display.show_error("STREAM", "CHECK SERVER"));
    let mut paper = Paper::new();
    paper.frame();
    paper.text("ERR", 8, 8, 2, RED);
    paper.battery("--", MUTED);
    paper.centered("!", 58, 3, RED);
    paper.rect(18, 105, 99, 1, RED);
    paper.centered("STREAM", 139, 2, TEXT);
    paper.centered("ERROR", 166, 2, TEXT);
    paper.centered("PRESS AGAIN", 221, 1, MUTED);
    assert!(stream.points == paper.points);
}

#[test]
fn the_battery_is_coloured_by_its_charge() {
    for (battery, label, color) in [
        (view(None, false), "--", MUTED),
        (view(None, true), "USB", MUTED),
        (view(Some(5), false), "5%", RED),
        (view(Some(15), false), "15%", RED),
        (view(Some(16), false), "16%", AMBER),
        (view(Some(35), false), "35%", AMBER),
        (view(Some(36), false), "36%", TEXT),
        (view(Some(5), true), "5%", GREEN),
        (view(Some(100), false), "100%", TEXT),
        (view(Some(255), true), "100%", GREEN),
    ] {
        let drawn = shown(|display| display.update_battery(battery));
        let mut paper = Paper::new();
        paper.rect(82, 0, 53, 31, PANEL);
        paper.battery(label, color);
        assert!(drawn.points == paper.points, "{label}");
    }
    let mut display = StickDisplay::new();
    display.set_battery(view(Some(9), true));
    assert!(display.external_power());
    assert!(display.canvas.take().is_empty());
}

#[test]
fn the_backlight_follows_the_power() {
    let mut settings = AppSettings::default();
    assert_eq!(display_brightness_for_power(true, &settings), Brightness::Full);
    assert_eq!(display_brightness_for_power(false, &settings), Brightness::Dim);
    settings.battery_brightness = BatteryBrightness::Full;
    assert_eq!(display_brightness_for_power(false, &settings), Brightness::Full);
    assert_eq!(Brightness::Full.backlight_duty(256), 256);
    assert_eq!(Brightness::Dim.backlight_duty(256), 46);
    assert_eq!(Brightness::Off.backlight_duty(256), 0);
}

#[test]
fn the_panel_is_woken_up() {
    let commands: Vec<(u8, Vec<u8>, u32)> = setup_commands()
        .into_iter()
        .map(|command| (command.command, command.data, command.pause_ms))
        .collect();
    assert_eq!(
        commands,
        [
            (0x01, vec![], 150),
            (0x11, vec![], 120),
            (0x3a, vec![0x55], 0),
            (0x36, vec![0x00], 0),
            (0x21, vec![], 0)
        ]
    );
}
