use m5mic::pages::{escape_html, settings_html, REBOOT_HTML, SAVED_HTML};
use m5mic::setup::{
    ap_ssid, build_dns_response, dns_question_end, form_length, form_value, handle_save,
    handle_settings, hex_byte, hex_nibble, needs_stored, parse_credentials, parse_settings,
    portal_paths, portal_step, url_decode, PortalStep,
};
use m5mic::wifi_config::{AppSettings, BatteryBrightness, WifiCredentials, WirelessCodec};

fn stored(ssid: &str, password: &str) -> Option<WifiCredentials> {
    Some(WifiCredentials {
        ssid: ssid.to_string(),
        password: password.to_string(),
    })
}

fn query(name: &[u8], tail: &[u8]) -> Vec<u8> {
    let mut query = vec![0xab, 0xcd, 1, 0, 0, 1, 0, 0, 0, 0, 0, 0];
    query.extend_from_slice(name);
    query.extend_from_slice(tail);
    query
}

#[test]
fn the_network_is_named_after_the_device() {
    assert_eq!(ap_ssid(Some((0x0a, 0xf3))), "M5Mic-0AF3");
    assert_eq!(ap_ssid(None), "M5Mic-Setup");
    assert_eq!(
        portal_paths(),
        [
            "/",
            "/generate_204",
            "/hotspot-detect.html",
            "/connecttest.txt",
            "/ncsi.txt",
            "/fwlink"
        ]
    );
}

#[test]
fn forms_are_decoded() {
    assert_eq!(url_decode(b"a+b%20c"), "a b c");
    assert_eq!(url_decode(b"%41%7a%e9"), "Az\u{e9}");
    assert_eq!(url_decode(b"%4"), "%4");
    assert_eq!(url_decode(b"100%"), "100%");
    assert_eq!(url_decode(b"%zz1"), "%zz1");
    assert_eq!(url_decode("\u{e9}".as_bytes()), "\u{c3}\u{a9}");
    assert_eq!(hex_nibble(b'9'), Some(9));
    assert_eq!(hex_nibble(b'f'), Some(15));
    assert_eq!(hex_nibble(b'F'), Some(15));
    assert_eq!(hex_nibble(b'g'), None);
    assert_eq!(hex_byte(b'a', b'5'), Some(0xa5));
    assert_eq!(hex_byte(b'a', b'x'), None);
}

#[test]
fn fields_are_found_by_name() {
    let body = "ssid=+my%26net+&password=p%3Dq&flag&ssid=other";
    assert_eq!(form_value(body, "ssid").as_deref(), Some(" my&net "));
    assert_eq!(form_value(body, "password").as_deref(), Some("p=q"));
    assert_eq!(form_value(body, "flag").as_deref(), Some(""));
    assert_eq!(form_value(body, "pass"), None);
    assert_eq!(form_value("a=b=c", "a").as_deref(), Some("b=c"));
    let credentials = parse_credentials(body);
    assert_eq!(credentials.ssid, "my&net");
    assert_eq!(credentials.password, "p=q");
    assert_eq!(parse_credentials("").ssid, "");
}

#[test]
fn settings_are_read_from_the_form() {
    let settings = parse_settings(
        "battery_brightness=full&recording_battery_saver=1&wireless_codec=ima_adpcm4",
    );
    assert_eq!(
        settings,
        AppSettings {
            battery_brightness: BatteryBrightness::Full,
            recording_battery_saver: true,
            wireless_codec: WirelessCodec::ImaAdpcm4
        }
    );
    assert_eq!(
        parse_settings("battery_brightness=dim"),
        AppSettings {
            battery_brightness: BatteryBrightness::Dim,
            recording_battery_saver: false,
            wireless_codec: WirelessCodec::PcmS16Le
        }
    );
}

#[test]
fn a_blank_password_keeps_the_stored_one() {
    let saved = |body: &[u8], existing| {
        handle_save(body, existing)
            .unwrap()
            .credentials
            .map(|credentials| (credentials.ssid, credentials.password))
    };
    let pair = |ssid: &str, password: &str| Some((ssid.to_string(), password.to_string()));
    assert_eq!(saved(b"ssid=a&password=", stored("a", "old")), pair("a", "old"));
    assert_eq!(saved(b"ssid=b&password=", stored("a", "old")), pair("b", ""));
    assert_eq!(saved(b"ssid=a&password=new", stored("a", "old")), pair("a", "new"));
    assert_eq!(saved(b"ssid=a", None), pair("a", ""));
    assert_eq!(saved(b"ssid=++&password=x", stored("a", "old")), None);
    assert!(handle_save(&[0xff], None).is_none());
    assert!(handle_save(b"recording_battery_saver=1", None)
        .unwrap()
        .settings
        .recording_battery_saver);
    assert_eq!(
        handle_settings(b"battery_brightness=full").unwrap().battery_brightness,
        BatteryBrightness::Full
    );
    assert!(handle_settings(&[0xff]).is_none());
}

#[test]
fn forms_are_limited() {
    assert_eq!(form_length(None), Some(0));
    assert_eq!(form_length(Some(2048)), Some(2048));
    assert_eq!(form_length(Some(2049)), None);
    assert_eq!(portal_step(true, true), PortalStep::Saved);
    assert_eq!(portal_step(false, true), PortalStep::Reboot);
    assert_eq!(portal_step(false, false), PortalStep::Wait);
}

#[test]
fn pages_show_the_settings() {
    assert_eq!(
        escape_html("<a href=\"x\">'&'</a>"),
        "&lt;a href=&quot;x&quot;&gt;&#39;&amp;&#39;&lt;/a&gt;"
    );
    let page = settings_html(&stored("R&B", "secret"), AppSettings::default());
    assert!(page.starts_with("<!doctype html>"));
    assert!(page.ends_with("</html>\n"));
    assert!(page.contains("<strong>Saved: R&amp;B</strong>"));
    assert!(page.contains("value=\"R&amp;B\""));
    assert!(page.contains("<span>BtnB cycle</span><strong>Wi-Fi USB</strong>"));
    assert!(page.contains("<span>Wi-Fi codec</span><strong>PCM</strong>"));
    assert!(page.contains("value=\"pcm_s16le\" checked>"));
    assert!(page.contains("value=\"ima_adpcm4\">"));
    assert!(page.contains("value=\"dim\" checked>"));
    assert!(page.contains("value=\"full\">"));
    assert!(page.contains("value=\"1\" checked>"));
    assert!(page.contains("Leave blank to keep the current password"));
    assert!(!page.contains("secret"));
    assert!(!page.contains("{{"));
    let fresh = settings_html(
        &None,
        AppSettings {
            battery_brightness: BatteryBrightness::Full,
            recording_battery_saver: false,
            wireless_codec: WirelessCodec::ImaAdpcm4,
        },
    );
    assert!(fresh.contains("<strong>Not configured</strong>"));
    assert!(fresh.contains("Password is optional for open networks."));
    assert!(fresh.contains("<span>Battery screen</span><strong>full</strong>"));
    assert!(fresh.contains("<span>Rec saver</span><strong>off</strong>"));
    assert!(fresh.contains("value=\"ima_adpcm4\" checked>"));
    assert!(fresh.contains("value=\"1\">"));
    assert!(SAVED_HTML.contains("<h1>Saved</h1>"));
    assert!(REBOOT_HTML.contains("<h1>Rebooting</h1>"));
}

#[test]
fn every_name_leads_to_the_portal() {
    let asked = query(b"\x03www\x04test\x00", &[0, 1, 0, 1, 0xee]);
    assert_eq!(dns_question_end(&asked), Some(26));
    let mut response = [0x77u8; 64];
    assert_eq!(build_dns_response(&asked, &mut response), Some(42));
    assert_eq!(&response[..2], &asked[..2]);
    assert_eq!(&response[2..12], &[0x81, 0x80, 0, 1, 0, 1, 0, 0, 0, 0]);
    assert_eq!(&response[12..26], &asked[12..26]);
    assert_eq!(
        &response[26..42],
        &[0xc0, 0x0c, 0, 1, 0, 1, 0, 0, 0, 0, 0, 4, 192, 168, 71, 1]
    );
    assert_eq!(&response[42..], &[0x77; 22]);
}

#[test]
fn malformed_questions_are_not_answered() {
    assert_eq!(dns_question_end(&query(b"\x03www\x00", &[0, 1, 0])), None);
    assert_eq!(dns_question_end(&query(b"\x03ww", &[])), None);
    assert_eq!(dns_question_end(&query(b"\xc0\x0c", &[0, 1, 0, 1])), None);
    assert_eq!(dns_question_end(&query(b"", &[])), None);
    assert_eq!(dns_question_end(&query(b"\x00", &[0, 1, 0, 1])), Some(17));
    let asked = query(b"\x00", &[0, 1, 0, 1]);
    assert_eq!(build_dns_response(&asked, &mut [0; 32]), None);
    assert_eq!(build_dns_response(&asked, &mut [0; 33]), Some(33));
    assert_eq!(build_dns_response(&asked[..11], &mut [0; 64]), None);
}

#[test]
fn only_a_blank_password_asks_for_the_stored_one() {
    assert!(needs_stored(b"ssid=a&password="));
    assert!(needs_stored(b"ssid=a"));
    assert!(!needs_stored(b"ssid=a&password=new"));
    assert!(!needs_stored(b"ssid=++&password="));
    assert!(!needs_stored(b""));
    assert!(!needs_stored(&[0xff]));
}
