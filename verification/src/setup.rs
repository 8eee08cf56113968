//! The setup portal: the forms it takes in, and the name server that leads to it.

use vstd::prelude::*;
use vstd::string::*;

use crate::bytes::{append_bytes, bytes_equal, copy_into};
use crate::text::{decode_text, text_equal, trim_text, trimmed, utf8_decoded};
use crate::wifi_config::{
    credentials_text, optional_credentials, AppSettings, BatteryBrightness, WifiCredentials,
    WirelessCodec,
};

verus! {

pub const AP_CHANNEL: u8 = 6;

/// The address of the portal.
pub const AP_IP: [u8; 4] = [192, 168, 71, 1];

pub const MAX_FORM_BYTES: usize = 2048;

/// The addresses under which devices look for a portal.
pub fn portal_paths() -> (paths: Vec<&'static str>)
    ensures
        paths@ == seq![
            "/",
            "/generate_204",
            "/hotspot-detect.html",
            "/connecttest.txt",
            "/ncsi.txt",
            "/fwlink",
        ],
{
    let mut paths: Vec<&'static str> = Vec::new();
    paths.push("/");
    paths.push("/generate_204");
    paths.push("/hotspot-detect.html");
    paths.push("/connecttest.txt");
    paths.push("/ncsi.txt");
    paths.push("/fwlink");
    assert(paths@ =~= seq![
        "/",
        "/generate_204",
        "/hotspot-detect.html",
        "/connecttest.txt",
        "/ncsi.txt",
        "/fwlink",
    ]);
    paths
}

pub open spec fn upper_hex_char(d: int) -> char {
    if d < 10 {
        (0x30 + d) as char
    } else {
        (0x41 + d - 10) as char
    }
}

pub open spec fn upper_hex_byte(b: u8) -> Seq<char> {
    seq![upper_hex_char(b as int / 16), upper_hex_char(b as int % 16)]
}

/// The name of the portal's network, after the last two bytes of its address.
pub open spec fn portal_ssid(mac_end: Option<(u8, u8)>) -> Seq<char> {
    match mac_end {
        Some((a, b)) => "M5Mic-"@ + upper_hex_byte(a) + upper_hex_byte(b),
        None => "M5Mic-Setup"@,
    }
}

fn upper_hex(d: u8) -> (c: char)
    requires
        d < 16,
    ensures
        c == upper_hex_char(d as int),
{
    if d < 10 {
        (0x30 + d) as char
    } else {
        (0x41 + (d - 10)) as char
    }
}

pub fn ap_ssid(mac_end: Option<(u8, u8)>) -> (ssid: String)
    ensures
        ssid@ == portal_ssid(mac_end),
{
    match mac_end {
        Some((a, b)) => {
            let mut ssid = "M5Mic-".to_owned();
            ssid.push(upper_hex(a / 16));
            ssid.push(upper_hex(a % 16));
            ssid.push(upper_hex(b / 16));
            ssid.push(upper_hex(b % 16));
            assert(ssid@ =~= portal_ssid(mac_end));
            ssid
        },
        None => "M5Mic-Setup".to_owned(),
    }
}

/// The value of a hexadecimal digit, in either case.
pub open spec fn nibble_value(byte: u8) -> Option<u8> {
    if 0x30 <= byte <= 0x39 {
        Some((byte - 0x30) as u8)
    } else if 0x61 <= byte <= 0x66 {
        Some((byte - 0x61 + 10) as u8)
    } else if 0x41 <= byte <= 0x46 {
        Some((byte - 0x41 + 10) as u8)
    } else {
        None
    }
}

pub fn hex_nibble(byte: u8) -> (value: Option<u8>)
    ensures
        value == nibble_value(byte),
{
    if 0x30 <= byte && byte <= 0x39 {
        Some(byte - 0x30)
    } else if 0x61 <= byte && byte <= 0x66 {
        Some(byte - 0x61 + 10)
    } else if 0x41 <= byte && byte <= 0x46 {
        Some(byte - 0x41 + 10)
    } else {
        None
    }
}

/// The byte that two hexadecimal digits spell.
pub open spec fn hex_pair(high: u8, low: u8) -> Option<u8> {
    match (nibble_value(high), nibble_value(low)) {
        (Some(high), Some(low)) => Some((16 * high + low) as u8),
        _ => None,
    }
}

pub fn hex_byte(high: u8, low: u8) -> (value: Option<u8>)
    ensures
        value == hex_pair(high, low),
{
    match (hex_nibble(high), hex_nibble(low)) {
        (Some(high), Some(low)) => Some(16 * high + low),
        _ => None,
    }
}

/// What a value in a form stands for: a plus sign is a space, a percent sign with
/// two hexadecimal digits behind it is the character of that number, and every
/// other byte is the character of its own.
pub open spec fn url_decoded(bytes: Seq<u8>) -> Seq<char>
    decreases bytes.len(),
{
    if bytes.len() == 0 {
        Seq::empty()
    } else if bytes[0] == 0x2b {
        seq![' '] + url_decoded(bytes.skip(1))
    } else if bytes[0] == 0x25 && bytes.len() > 2 && hex_pair(bytes[1], bytes[2]) is Some {
        seq![hex_pair(bytes[1], bytes[2])->0 as char] + url_decoded(bytes.skip(3))
    } else {
        seq![bytes[0] as char] + url_decoded(bytes.skip(1))
    }
}

pub fn url_decode(bytes: &[u8]) -> (text: String)
    ensures
        text@ == url_decoded(bytes@),
{
    let mut text = String::new();
    let mut index: usize = 0;
    assert(bytes@.skip(0) =~= bytes@);
    assert(text@ + url_decoded(bytes@) =~= url_decoded(bytes@));
    while index < bytes.len()
        invariant
            index <= bytes@.len(),
            text@ + url_decoded(bytes@.skip(index as int)) == url_decoded(bytes@),
        decreases bytes@.len() - index,
    {
        let ghost rest = bytes@.skip(index as int);
        let ghost before = text@;
        let byte: u8 = bytes[index];
        let decoded: Option<u8> = if byte == 0x25 && bytes.len() - index > 2 {
            hex_byte(bytes[index + 1], bytes[index + 2])
        } else {
            None
        };
        assert(rest.skip(1) =~= bytes@.skip(index + 1));
        if byte == 0x2b {
            text.push(' ');
            index += 1;
            assert(text@ + url_decoded(rest.skip(1)) =~= before + url_decoded(rest));
        } else if let Some(value) = decoded {
            assert(rest.skip(3) =~= bytes@.skip(index + 3));
            text.push(value as char);
            index += 3;
            assert(text@ + url_decoded(rest.skip(3)) =~= before + url_decoded(rest));
        } else {
            text.push(byte as char);
            index += 1;
            assert(text@ + url_decoded(rest.skip(1)) =~= before + url_decoded(rest));
        }
    }
    assert(bytes@.skip(index as int) =~= Seq::<u8>::empty());
    assert(text@ + Seq::<char>::empty() =~= text@);
    text
}

/// Bytes that mean nothing special in a form stand for themselves.
pub proof fn law_plain_values_are_kept(bytes: Seq<u8>)
    requires
        forall|i: int| 0 <= i < bytes.len() ==> #[trigger] bytes[i] != 0x2b && bytes[i] != 0x25,
    ensures
        url_decoded(bytes) == Seq::new(bytes.len(), |i: int| bytes[i] as char),
    decreases bytes.len(),
{
    if bytes.len() > 0 {
        let rest = bytes.skip(1);
        assert forall|i: int| 0 <= i < rest.len() implies #[trigger] rest[i] != 0x2b && rest[i]
            != 0x25 by {
            assert(rest[i] == bytes[i + 1]);
        }
        law_plain_values_are_kept(rest);
        assert(url_decoded(bytes) =~= Seq::new(bytes.len(), |i: int| bytes[i] as char));
    } else {
        assert(url_decoded(bytes) =~= Seq::new(bytes.len(), |i: int| bytes[i] as char));
    }
}

/// The length of the part of `bytes` before the first `separator`.
pub open spec fn until(bytes: Seq<u8>, separator: u8) -> nat
    decreases bytes.len(),
{
    if bytes.len() == 0 || bytes[0] == separator {
        0
    } else {
        1 + until(bytes.skip(1), separator)
    }
}

proof fn lemma_until(bytes: Seq<u8>, separator: u8, n: int)
    requires
        0 <= n <= bytes.len(),
        forall|k: int| 0 <= k < n ==> #[trigger] bytes[k] != separator,
        n == bytes.len() || bytes[n] == separator,
    ensures
        until(bytes, separator) == n,
    decreases n,
{
    if n > 0 {
        let rest = bytes.skip(1);
        assert forall|k: int| 0 <= k < n - 1 implies #[trigger] rest[k] != separator by {
            assert(rest[k] == bytes[k + 1]);
        }
        lemma_until(rest, separator, n - 1);
    }
}

proof fn lemma_until_bound(bytes: Seq<u8>, separator: u8)
    ensures
        until(bytes, separator) <= bytes.len(),
    decreases bytes.len(),
{
    if bytes.len() > 0 {
        lemma_until_bound(bytes.skip(1), separator);
    }
}

/// Where the first `separator` at or after `from` and before `end` stands, or
/// `end`.
fn find(bytes: &[u8], from: usize, end: usize, separator: u8) -> (at: usize)
    requires
        from <= end <= bytes@.len(),
    ensures
        from <= at <= end,
        at - from == until(bytes@.subrange(from as int, end as int), separator),
        at < end ==> bytes@[at as int] == separator,
{
    let mut at: usize = from;
    let ghost part = bytes@.subrange(from as int, end as int);
    while at < end && bytes[at] != separator
        invariant
            from <= at <= end <= bytes@.len(),
            part == bytes@.subrange(from as int, end as int),
            forall|k: int| 0 <= k < at - from ==> #[trigger] part[k] != separator,
        decreases end - at,
    {
        assert(part[at - from] == bytes@[at as int]);
        at += 1;
    }
    proof {
        if at < end {
            assert(part[at - from] == bytes@[at as int]);
        }
        lemma_until(part, separator, at - from);
    }
    at
}

/// The name in a pair: what stands before its first equals sign.
pub open spec fn pair_name(pair: Seq<u8>) -> Seq<u8> {
    pair.take(until(pair, 0x3d) as int)
}

/// The value in a pair: what stands behind its first equals sign, if it has one.
pub open spec fn pair_value(pair: Seq<u8>) -> Seq<u8> {
    if until(pair, 0x3d) < pair.len() {
        pair.skip(until(pair, 0x3d) as int + 1)
    } else {
        Seq::empty()
    }
}

/// The value of the first pair of a form that has the name `key`. Pairs are
/// separated by ampersands.
pub open spec fn form_entry(body: Seq<u8>, key: Seq<u8>) -> Option<Seq<char>>
    decreases body.len(),
    via form_entry_decreases
{
    let n = until(body, 0x26) as int;
    let pair = body.take(n);
    if pair_name(pair) == key {
        Some(url_decoded(pair_value(pair)))
    } else if n < body.len() {
        form_entry(body.skip(n + 1), key)
    } else {
        None
    }
}

#[via_fn]
proof fn form_entry_decreases(body: Seq<u8>, key: Seq<u8>) {
    lemma_until_bound(body, 0x26);
}

/// The text of an optional string.
pub open spec fn optional_string(text: Option<String>) -> Option<Seq<char>> {
    match text {
        Some(text) => Some(text@),
        None => None,
    }
}

pub fn form_value(body: &str, key: &str) -> (value: Option<String>)
    ensures
        optional_string(value) == form_entry(body.spec_bytes(), key.spec_bytes()),
{
    let bytes = body.as_bytes();
    let name = key.as_bytes();
    let mut from: usize = 0;
    let total: usize = bytes.len();
    assert(bytes@.skip(0) =~= bytes@);
    loop
        invariant
            total == bytes@.len(),
            from <= total,
            name@ == key.spec_bytes(),
            bytes@ == body.spec_bytes(),
            form_entry(bytes@, name@) == form_entry(bytes@.skip(from as int), name@),
        decreases total - from,
    {
        let ghost rest = bytes@.skip(from as int);
        let end: usize = find(bytes, from, total, 0x26);
        proof {
            assert(bytes@.subrange(from as int, total as int) =~= rest);
            assert(rest.take(end - from) =~= bytes@.subrange(from as int, end as int));
        }
        let equals: usize = find(bytes, from, end, 0x3d);
        let ghost pair = bytes@.subrange(from as int, end as int);
        assert(bytes@.subrange(from as int, equals as int) =~= pair_name(pair));
        if bytes_equal(&bytes[from..equals], name) {
            if equals < end {
                assert(bytes@.subrange(equals + 1, end as int) =~= pair_value(pair));
                return Some(url_decode(&bytes[equals + 1..end]));
            } else {
                assert(bytes@.subrange(end as int, end as int) =~= pair_value(pair));
                return Some(url_decode(&bytes[end..end]));
            }
        }
        if end == total {
            return None;
        }
        assert(rest.skip(end - from + 1) =~= bytes@.skip(end + 1));
        from = end + 1;
    }
}

pub open spec fn or_empty(text: Option<Seq<char>>) -> Seq<char> {
    match text {
        Some(text) => text,
        None => Seq::empty(),
    }
}

/// The credentials in a form: the name without white space around it.
pub open spec fn credentials_in(body: Seq<u8>) -> (Seq<char>, Seq<char>) {
    (
        trimmed(or_empty(form_entry(body, "ssid".spec_bytes()))),
        or_empty(form_entry(body, "password".spec_bytes())),
    )
}

pub fn parse_credentials(body: &str) -> (credentials: WifiCredentials)
    ensures
        credentials_text(credentials) == credentials_in(body.spec_bytes()),
{
    let ssid = match form_value(body, "ssid") {
        Some(ssid) => ssid,
        None => String::new(),
    };
    let password = match form_value(body, "password") {
        Some(password) => password,
        None => String::new(),
    };
    WifiCredentials { ssid: trim_text(ssid.as_str()), password }
}

/// The settings in a form. A box that is not ticked is not in the form at all.
pub open spec fn settings_in_form(body: Seq<u8>) -> AppSettings {
    AppSettings {
        battery_brightness: if form_entry(body, "battery_brightness".spec_bytes()) == Some(
            "full"@,
        ) {
            BatteryBrightness::Full
        } else {
            BatteryBrightness::Dim
        },
        recording_battery_saver: form_entry(body, "recording_battery_saver".spec_bytes()) is Some,
        wireless_codec: if form_entry(body, "wireless_codec".spec_bytes()) == Some("ima_adpcm4"@) {
            WirelessCodec::ImaAdpcm4
        } else {
            WirelessCodec::PcmS16Le
        },
    }
}

fn holds(value: &Option<String>, text: &str) -> (yes: bool)
    ensures
        yes == (optional_string(*value) == Some(text@)),
{
    match value {
        Some(value) => text_equal(value.as_str(), text),
        None => false,
    }
}

pub fn parse_settings(body: &str) -> (settings: AppSettings)
    ensures
        settings == settings_in_form(body.spec_bytes()),
{
    let brightness = form_value(body, "battery_brightness");
    let saver = form_value(body, "recording_battery_saver");
    let codec = form_value(body, "wireless_codec");
    AppSettings {
        battery_brightness: if holds(&brightness, "full") {
            BatteryBrightness::Full
        } else {
            BatteryBrightness::Dim
        },
        recording_battery_saver: saver.is_some(),
        wireless_codec: if holds(&codec, "ima_adpcm4") {
            WirelessCodec::ImaAdpcm4
        } else {
            WirelessCodec::PcmS16Le
        },
    }
}

/// How many bytes of a form are read: as many as are announced, unless they are
/// too many.
pub fn form_length(content_length: Option<u64>) -> (len: Option<usize>)
    ensures
        len == match content_length {
            Some(length) => if length > MAX_FORM_BYTES {
                None
            } else {
                Some(length as usize)
            },
            None => Some(0usize),
        },
{
    match content_length {
        Some(length) => if length > 2048 {
            None
        } else {
            Some(length as usize)
        },
        None => Some(0),
    }
}

/// The credentials that are stored for those of a form: none without a name, and
/// with an empty password the one that is stored for the same name.
pub open spec fn credentials_kept(
    form: (Seq<char>, Seq<char>),
    existing: Option<(Seq<char>, Seq<char>)>,
) -> Option<(Seq<char>, Seq<char>)> {
    let (ssid, password) = form;
    if ssid.len() == 0 {
        None
    } else {
        match existing {
            Some((stored_ssid, stored_password)) => if password.len() == 0 && stored_ssid == ssid {
                Some((ssid, stored_password))
            } else {
                Some(form)
            },
            None => Some(form),
        }
    }
}

/// What a form comes to.
#[derive(Debug)]
pub struct SavedForm {
    pub settings: AppSettings,
    pub credentials: Option<WifiCredentials>,
}

/// Whether a submitted form has to do with the stored password: it names a network and
/// leaves the password blank.
pub open spec fn leaves_password_blank(form: (Seq<char>, Seq<char>)) -> bool {
    form.0.len() > 0 && form.1.len() == 0
}

/// Whether what is stored has to be known to save a submitted form.
pub fn needs_stored(body: &[u8]) -> (needs: bool)
    ensures
        needs == (utf8_decoded(body@) is Some && leaves_password_blank(credentials_in(body@))),
{
    match decode_text(body) {
        Some(text) => {
            proof {
                vstd::utf8::decode_utf8_encode_utf8(body@);
            }
            let credentials = parse_credentials(text);
            !credentials.ssid.as_str().is_empty() && credentials.password.as_str().is_empty()
        },
        None => false,
    }
}

/// What is stored matters to a form only where it leaves the password blank.
pub proof fn law_only_a_blank_password_needs_what_is_stored(
    form: (Seq<char>, Seq<char>),
    existing: Option<(Seq<char>, Seq<char>)>,
)
    requires
        !leaves_password_blank(form),
    ensures
        credentials_kept(form, existing) == credentials_kept(form, None),
{
}

/// What a submitted form comes to, unless it is not text; `existing` is what is
/// stored.
pub fn handle_save(body: &[u8], existing: Option<WifiCredentials>) -> (form: Option<SavedForm>)
    ensures
        match form {
            Some(form) => {
                &&& utf8_decoded(body@) is Some
                &&& form.settings == settings_in_form(body@)
                &&& optional_credentials(form.credentials) == credentials_kept(
                    credentials_in(body@),
                    optional_credentials(existing),
                )
            },
            None => utf8_decoded(body@) is None,
        },
{
    let text = match decode_text(body) {
        Some(text) => text,
        None => return None,
    };
    proof {
        vstd::utf8::decode_utf8_encode_utf8(body@);
    }
    let settings = parse_settings(text);
    let mut credentials = parse_credentials(text);
    if credentials.ssid.as_str().is_empty() {
        return Some(SavedForm { settings, credentials: None });
    }
    if credentials.password.as_str().is_empty() {
        if let Some(existing) = existing {
            if text_equal(existing.ssid.as_str(), credentials.ssid.as_str()) {
                credentials.password = existing.password;
            }
        }
    }
    Some(SavedForm { settings, credentials: Some(credentials) })
}

/// The settings in a submitted form, unless it is not text.
pub fn handle_settings(body: &[u8]) -> (settings: Option<AppSettings>)
    ensures
        settings == if utf8_decoded(body@) is Some {
            Some(settings_in_form(body@))
        } else {
            None
        },
{
    match decode_text(body) {
        Some(text) => {
            proof {
                vstd::utf8::decode_utf8_encode_utf8(body@);
            }
            Some(parse_settings(text))
        },
        None => None,
    }
}

/// Leaving the password blank keeps it as long as the name is the same.
pub proof fn law_blank_password_keeps_the_stored_one(ssid: Seq<char>, password: Seq<char>)
    requires
        ssid.len() > 0,
    ensures
        credentials_kept((ssid, Seq::empty()), Some((ssid, password))) == Some((ssid, password)),
{
}

/// What the portal does next.
#[derive(Debug, Clone, Copy, PartialEq, Eq, Structural)]
pub enum PortalStep {
    /// Say that the form was saved, and reboot.
    Saved,
    /// Say that the device reboots, and reboot.
    Reboot,
    Wait,
}

pub fn portal_step(saved: bool, reboot: bool) -> (step: PortalStep)
    ensures
        step == if saved {
            PortalStep::Saved
        } else if reboot {
            PortalStep::Reboot
        } else {
            PortalStep::Wait
        },
{
    if saved {
        PortalStep::Saved
    } else if reboot {
        PortalStep::Reboot
    } else {
        PortalStep::Wait
    }
}

/// Where the name in a query ends that has a label at `at`: behind an empty label.
/// Labels are shorter than 64 bytes; others are not understood.
pub open spec fn name_end(query: Seq<u8>, at: int) -> Option<int>
    decreases query.len() - at,
{
    if at < 0 || at >= query.len() {
        None
    } else if query[at] == 0 {
        Some(at + 1)
    } else if query[at] >= 64 || at + 1 + query[at] >= query.len() {
        None
    } else {
        name_end(query, at + 1 + query[at])
    }
}

/// Where the first question of a query ends: behind its name, type and class.
pub open spec fn question_end(query: Seq<u8>) -> Option<int> {
    match name_end(query, 12) {
        Some(end) => if end + 4 <= query.len() {
            Some(end + 4)
        } else {
            None
        },
        None => None,
    }
}

pub fn dns_question_end(query: &[u8]) -> (end: Option<usize>)
    ensures
        match end {
            Some(end) => question_end(query@) == Some(end as int),
            None => question_end(query@) is None,
        },
{
    let total: usize = query.len();
    let mut offset: usize = 12;
    loop
        invariant_except_break
            12 <= offset,
            name_end(query@, 12) == name_end(query@, offset as int),
            offset < total || offset == 12,
        invariant
            total == query@.len(),
        ensures
            name_end(query@, 12) == Some(offset as int),
            offset <= total,
        decreases total + 13 - offset,
    {
        if offset >= total {
            return None;
        }
        let len: usize = query[offset] as usize;
        if len == 0 {
            offset += 1;
            break;
        }
        if len >= 64 || len >= total - offset - 1 {
            return None;
        }
        offset = offset + 1 + len;
    }
    if total - offset < 4 {
        return None;
    }
    Some(offset + 4)
}

/// The reply that gives the portal's address for whatever was asked.
pub open spec fn dns_reply(query: Seq<u8>, end: int) -> Seq<u8> {
    query.take(2) + seq![0x81u8, 0x80, 0x00, 0x01, 0x00, 0x01, 0x00, 0x00, 0x00, 0x00]
        + query.subrange(12, end) + seq![
        0xc0u8,
        0x0c,
        0x00,
        0x01,
        0x00,
        0x01,
        0x00,
        0x00,
        0x00,
        0x00,
        0x00,
        0x04,
    ] + AP_IP@
}

fn push_all(out: &mut Vec<u8>, a: u8, b: u8)
    ensures
        final(out)@ == old(out)@.push(a).push(b),
{
    out.push(a);
    out.push(b);
}

pub fn build_dns_response(query: &[u8], response: &mut [u8]) -> (len: Option<usize>)
    ensures
        match len {
            Some(len) => {
                &&& query@.len() >= 12
                &&& old(response)@.len() >= query@.len() + 16
                &&& question_end(query@) is Some
                &&& len == question_end(query@)->0 + 16
                &&& final(response)@ == dns_reply(query@, question_end(query@)->0) + old(
                    response,
                )@.skip(len as int)
            },
            None => {
                &&& query@.len() < 12 || old(response)@.len() < query@.len() + 16 || question_end(
                    query@,
                ) is None
                &&& final(response)@ == old(response)@
            },
        },
{
    if query.len() < 12 || response.len() < 16 || response.len() - 16 < query.len() {
        return None;
    }
    let end: usize = match dns_question_end(query) {
        Some(end) => end,
        None => return None,
    };
    proof {
        lemma_name_end_bound(query@, 12);
    }
    let mut reply: Vec<u8> = Vec::new();
    push_all(&mut reply, query[0], query[1]);
    push_all(&mut reply, 0x81, 0x80);
    push_all(&mut reply, 0x00, 0x01);
    push_all(&mut reply, 0x00, 0x01);
    push_all(&mut reply, 0x00, 0x00);
    push_all(&mut reply, 0x00, 0x00);
    assert(reply@ =~= query@.take(2) + seq![
        0x81u8,
        0x80,
        0x00,
        0x01,
        0x00,
        0x01,
        0x00,
        0x00,
        0x00,
        0x00,
    ]);
    append_bytes(&mut reply, &query[12..end]);
    let ghost before = reply@;
    push_all(&mut reply, 0xc0, 0x0c);
    push_all(&mut reply, 0x00, 0x01);
    push_all(&mut reply, 0x00, 0x01);
    push_all(&mut reply, 0x00, 0x00);
    push_all(&mut reply, 0x00, 0x00);
    push_all(&mut reply, 0x00, 0x04);
    assert(reply@ =~= before + seq![
        0xc0u8,
        0x0c,
        0x00,
        0x01,
        0x00,
        0x01,
        0x00,
        0x00,
        0x00,
        0x00,
        0x00,
        0x04,
    ]);
    append_bytes(&mut reply, &AP_IP);
    let ghost old_response = response@;
    copy_into(response, 0, reply.as_slice());
    assert(response@ =~= dns_reply(query@, end as int) + old_response.skip(end + 16));
    Some(end + 16)
}

proof fn lemma_name_end_bound(query: Seq<u8>, at: int)
    requires
        0 <= at,
    ensures
        name_end(query, at) matches Some(end) ==> at < end <= query.len(),
    decreases query.len() - at,
{
    if at < query.len() && query[at] != 0 && query[at] < 64 && at + 1 + query[at] < query.len() {
        lemma_name_end_bound(query, at + 1 + query[at]);
    }
}

/// A reply has the number and the question of its query, and ends with the
/// address of the portal.
pub proof fn law_dns_reply_repeats_the_question(query: Seq<u8>)
    requires
        query.len() >= 12,
        question_end(query) is Some,
    ensures
        ({
            let end = question_end(query)->0;
            let reply = dns_reply(query, end);
            &&& reply.len() == end + 16
            &&& reply.take(2) == query.take(2)
            &&& reply.subrange(12, end) == query.subrange(12, end)
            &&& reply.skip(end + 12) == AP_IP@
        }),
{
    lemma_name_end_bound(query, 12);
    let end = question_end(query)->0;
    let reply = dns_reply(query, end);
    assert(reply.take(2) =~= query.take(2));
    assert(reply.subrange(12, end) =~= query.subrange(12, end));
    assert(reply.skip(end + 12) =~= AP_IP@);
}

/// How a character is written in a form.
pub ghost enum Writing {
    /// As the byte of its number.
    Plain,
    /// As a plus sign.
    Plus,
    /// As a percent sign and the two hexadecimal digits of its number.
    Escaped { upper: bool },
}

pub open spec fn hex_digit_byte(digit: int, upper: bool) -> u8 {
    if digit < 10 {
        (0x30 + digit) as u8
    } else if upper {
        (0x41 + digit - 10) as u8
    } else {
        (0x61 + digit - 10) as u8
    }
}

pub open spec fn written(c: char, writing: Writing) -> Seq<u8> {
    match writing {
        Writing::Plain => seq![c as u8],
        Writing::Plus => seq![0x2bu8],
        Writing::Escaped { upper } => seq![
            0x25u8,
            hex_digit_byte(c as int / 16, upper),
            hex_digit_byte(c as int % 16, upper),
        ],
    }
}

/// Whether a character may be written so: as a plus sign only a blank, and as itself
/// neither a plus nor a percent sign.
pub open spec fn may_be_written(c: char, writing: Writing) -> bool {
    0 <= c as int <= 255 && match writing {
        Writing::Plain => c != '+' && c != '%',
        Writing::Plus => c == ' ',
        Writing::Escaped { .. } => true,
    }
}

/// `text` in a form, with each character written in the way that is given for it.
pub open spec fn form_encoded(text: Seq<char>, writings: Seq<Writing>) -> Seq<u8>
    decreases text.len(),
{
    if text.len() == 0 {
        Seq::empty()
    } else {
        written(text[0], writings[0]) + form_encoded(text.drop_first(), writings.drop_first())
    }
}

proof fn lemma_hex_digit(digit: int, upper: bool)
    requires
        0 <= digit < 16,
    ensures
        nibble_value(hex_digit_byte(digit, upper)) == Some(digit as u8),
{
}

/// Decoding undoes form encoding, in whatever way each character was written.
pub proof fn law_decoding_undoes_form_encoding(text: Seq<char>, writings: Seq<Writing>)
    requires
        text.len() == writings.len(),
        forall|i: int| 0 <= i < text.len() ==> may_be_written(#[trigger] text[i], writings[i]),
    ensures
        url_decoded(form_encoded(text, writings)) == text,
    decreases text.len(),
{
    let bytes = form_encoded(text, writings);
    if text.len() == 0 {
        assert(url_decoded(bytes) =~= text);
    } else {
        let rest = text.drop_first();
        let others = writings.drop_first();
        assert forall|i: int| 0 <= i < rest.len() implies may_be_written(
            #[trigger] rest[i],
            others[i],
        ) by {
            assert(may_be_written(text[i + 1], writings[i + 1]));
        }
        law_decoding_undoes_form_encoding(rest, others);
        let tail = form_encoded(rest, others);
        let c = text[0];
        assert(may_be_written(c, writings[0]));
        assert((c as u8) as int == c as int);
        assert((c as u8) as char == c);
        let head = written(c, writings[0]);
        assert(bytes == head + tail);
        assert(bytes.skip(head.len() as int) =~= tail);
        match writings[0] {
            Writing::Plain => {
                assert(bytes[0] == c as u8);
            },
            Writing::Plus => {
                assert(bytes[0] == 0x2b);
            },
            Writing::Escaped { upper } => {
                assert(bytes[0] == 0x25);
                assert(bytes[1] == hex_digit_byte(c as int / 16, upper));
                assert(bytes[2] == hex_digit_byte(c as int % 16, upper));
                lemma_hex_digit(c as int / 16, upper);
                lemma_hex_digit(c as int % 16, upper);
                assert(hex_pair(bytes[1], bytes[2]) == Some(c as u8));
            },
        }
        assert(url_decoded(bytes) =~= seq![c] + rest);
        assert(seq![c] + rest =~= text);
    }
}

/// How a browser writes a character in a form.
pub open spec fn browser_writing(c: char) -> Writing {
    if c == ' ' {
        Writing::Plus
    } else if 'a' <= c <= 'z' || 'A' <= c <= 'Z' || '0' <= c <= '9' || c == '*' || c == '-' || c
        == '.' || c == '_' {
        Writing::Plain
    } else {
        Writing::Escaped { upper: true }
    }
}

/// What is typed into a form, of characters that take one byte, is what is read from it.
pub proof fn law_what_is_typed_in_is_read(text: Seq<char>)
    requires
        forall|i: int| 0 <= i < text.len() ==> 0 <= #[trigger] text[i] as int <= 255,
    ensures
        url_decoded(
            form_encoded(text, Seq::new(text.len(), |i: int| browser_writing(text[i]))),
        ) == text,
{
    law_decoding_undoes_form_encoding(
        text,
        Seq::new(text.len(), |i: int| browser_writing(text[i])),
    );
}

pub open spec fn is_hex_byte(b: u8) -> bool {
    0x30 <= b <= 0x39 || 0x41 <= b <= 0x46 || 0x61 <= b <= 0x66
}

/// A percent sign without two hexadecimal digits behind it stands for itself.
pub proof fn law_a_lone_percent_sign_stands_for_itself(rest: Seq<u8>)
    requires
        rest.len() < 2 || !is_hex_byte(rest[0]) || !is_hex_byte(rest[1]),
    ensures
        url_decoded(seq![0x25u8] + rest) == seq!['%'] + url_decoded(rest),
{
    let bytes = seq![0x25u8] + rest;
    assert(bytes.skip(1) =~= rest);
    if rest.len() >= 2 {
        assert(bytes[1] == rest[0] && bytes[2] == rest[1]);
    }
}

/// A field of a form: its name, and its value as it is written.
pub ghost struct Field {
    pub name: Seq<u8>,
    pub value: Seq<u8>,
}

pub open spec fn field_bytes(field: Field) -> Seq<u8> {
    field.name + seq![0x3du8] + field.value
}

/// The body of a form with these fields: pairs with an equals sign in each and an
/// ampersand between two.
pub open spec fn form_body(fields: Seq<Field>) -> Seq<u8>
    decreases fields.len(),
{
    if fields.len() == 0 {
        Seq::empty()
    } else if fields.len() == 1 {
        field_bytes(fields[0])
    } else {
        field_bytes(fields[0]) + seq![0x26u8] + form_body(fields.drop_first())
    }
}

/// That the names hold neither separator, and the values none between two fields.
pub open spec fn fields_fit(fields: Seq<Field>) -> bool {
    forall|k: int|
        0 <= k < fields.len() ==> !(#[trigger] fields[k]).name.contains(0x3d)
            && !fields[k].name.contains(0x26) && !fields[k].value.contains(0x26)
}

/// The value of the first field with a name.
pub open spec fn first_value(fields: Seq<Field>, name: Seq<u8>) -> Option<Seq<u8>>
    decreases fields.len(),
{
    if fields.len() == 0 {
        None
    } else if fields[0].name == name {
        Some(fields[0].value)
    } else {
        first_value(fields.drop_first(), name)
    }
}

proof fn lemma_field(field: Field)
    requires
        !field.name.contains(0x3d),
    ensures
        pair_name(field_bytes(field)) == field.name,
        pair_value(field_bytes(field)) == field.value,
{
    let bytes = field_bytes(field);
    let n = field.name.len() as int;
    assert forall|k: int| 0 <= k < n implies #[trigger] bytes[k] != 0x3d by {
        assert(field.name.contains(field.name[k]));
    }
    lemma_until(bytes, 0x3d, n);
    assert(bytes.take(n) =~= field.name);
    assert(bytes.skip(n + 1) =~= field.value);
}

/// A form gives the value of the first field with the name that is asked for, decoded,
/// and nothing if there is none.
pub proof fn law_a_form_gives_its_values(fields: Seq<Field>, name: Seq<u8>)
    requires
        fields.len() > 0,
        fields_fit(fields),
    ensures
        form_entry(form_body(fields), name) == match first_value(fields, name) {
            Some(value) => Some(url_decoded(value)),
            None => None,
        },
    decreases fields.len(),
{
    let body = form_body(fields);
    let first = field_bytes(fields[0]);
    let n = first.len() as int;
    assert(fields[0] == fields[0]);
    assert forall|k: int| 0 <= k < n implies #[trigger] body[k] != 0x26 by {
        assert(body[k] == first[k]);
        if k < fields[0].name.len() {
            assert(fields[0].name.contains(first[k]));
        } else if k > fields[0].name.len() {
            assert(first[k] == fields[0].value[k - fields[0].name.len() - 1]);
            assert(fields[0].value.contains(first[k]));
        }
    }
    lemma_until(body, 0x26, n);
    assert(body.take(n) =~= first);
    lemma_field(fields[0]);
    if fields.len() > 1 {
        let rest = fields.drop_first();
        assert forall|k: int| 0 <= k < rest.len() implies !(#[trigger] rest[k]).name.contains(0x3d)
            && !rest[k].name.contains(0x26) && !rest[k].value.contains(0x26) by {
            assert(rest[k] == fields[k + 1]);
        }
        law_a_form_gives_its_values(rest, name);
        assert(body.skip(n + 1) =~= form_body(rest));
    } else {
        assert(fields.drop_first() =~= Seq::<Field>::empty());
        assert(first_value(fields.drop_first(), name) is None);
    }
}

/// A form that is submitted gives the network name that was typed in, without white
/// space around it, and the password as it was typed in.
pub proof fn law_a_form_gives_the_credentials_typed_in(
    fields: Seq<Field>,
    ssid: Seq<char>,
    password: Seq<char>,
)
    requires
        fields.len() > 0,
        fields_fit(fields),
        forall|i: int| 0 <= i < ssid.len() ==> 0 <= #[trigger] ssid[i] as int <= 255,
        forall|i: int| 0 <= i < password.len() ==> 0 <= #[trigger] password[i] as int <= 255,
        first_value(fields, "ssid".spec_bytes()) == Some(
            form_encoded(ssid, Seq::new(ssid.len(), |i: int| browser_writing(ssid[i]))),
        ),
        first_value(fields, "password".spec_bytes()) == Some(
            form_encoded(password, Seq::new(password.len(), |i: int| browser_writing(password[i]))),
        ),
    ensures
        credentials_in(form_body(fields)) == (trimmed(ssid), password),
{
    law_a_form_gives_its_values(fields, "ssid".spec_bytes());
    law_a_form_gives_its_values(fields, "password".spec_bytes());
    law_what_is_typed_in_is_read(ssid);
    law_what_is_typed_in_is_read(password);
}

/// A form that is submitted gives the settings that were chosen: the screen is at full
/// brightness and the codec is ADPCM if and only if the form says so, and the saver is
/// on if and only if its box was ticked.
pub proof fn law_a_form_gives_the_settings_chosen(fields: Seq<Field>)
    requires
        fields.len() > 0,
        fields_fit(fields),
    ensures
        ({
            let settings = settings_in_form(form_body(fields));
            let brightness = first_value(fields, "battery_brightness".spec_bytes());
            let saver = first_value(fields, "recording_battery_saver".spec_bytes());
            let codec = first_value(fields, "wireless_codec".spec_bytes());
            &&& settings.battery_brightness == BatteryBrightness::Full <==> brightness is Some
                && url_decoded(brightness->0) == "full"@
            &&& settings.wireless_codec == WirelessCodec::ImaAdpcm4 <==> codec is Some
                && url_decoded(codec->0) == "ima_adpcm4"@
            &&& settings.recording_battery_saver <==> saver is Some
        }),
{
    law_a_form_gives_its_values(fields, "battery_brightness".spec_bytes());
    law_a_form_gives_its_values(fields, "recording_battery_saver".spec_bytes());
    law_a_form_gives_its_values(fields, "wireless_codec".spec_bytes());
}

/// A network that is named is stored under that name, with the password that is given
/// for it; one for another network is never taken over.
pub proof fn law_a_given_password_is_stored(
    ssid: Seq<char>,
    password: Seq<char>,
    existing: Option<(Seq<char>, Seq<char>)>,
)
    ensures
        match credentials_kept((ssid, password), existing) {
            None => ssid.len() == 0,
            Some((name, secret)) => {
                &&& ssid.len() > 0
                &&& name == ssid
                &&& password.len() > 0 ==> secret == password
                &&& existing is None ==> secret == password
                &&& existing matches Some((stored, _)) ==> stored != ssid ==> secret == password
            },
        },
{
}

/// The networks of devices whose addresses end differently have different names.
pub proof fn law_portals_are_told_apart(a: u8, b: u8, c: u8, d: u8)
    requires
        portal_ssid(Some((a, b))) == portal_ssid(Some((c, d))),
    ensures
        a == c,
        b == d,
{
    reveal_strlit("M5Mic-");
    let one = portal_ssid(Some((a, b)));
    let other = portal_ssid(Some((c, d)));
    assert(one[6] == upper_hex_char(a as int / 16) && other[6] == upper_hex_char(c as int / 16));
    assert(one[7] == upper_hex_char(a as int % 16) && other[7] == upper_hex_char(c as int % 16));
    assert(one[8] == upper_hex_char(b as int / 16) && other[8] == upper_hex_char(d as int / 16));
    assert(one[9] == upper_hex_char(b as int % 16) && other[9] == upper_hex_char(d as int % 16));
}

/// A domain name as it stands in a query: each label behind its length, and an empty
/// one at the end.
pub open spec fn name_bytes(labels: Seq<Seq<u8>>) -> Seq<u8>
    decreases labels.len(),
{
    if labels.len() == 0 {
        seq![0u8]
    } else {
        seq![labels[0].len() as u8] + labels[0] + name_bytes(labels.drop_first())
    }
}

proof fn lemma_name_end(query: Seq<u8>, at: int, labels: Seq<Seq<u8>>)
    requires
        0 <= at,
        at + name_bytes(labels).len() <= query.len(),
        query.subrange(at, at + name_bytes(labels).len()) == name_bytes(labels),
        forall|k: int| 0 <= k < labels.len() ==> 0 < (#[trigger] labels[k]).len() < 64,
    ensures
        name_end(query, at) == Some(at + name_bytes(labels).len()),
        name_bytes(labels).len() > 0,
    decreases labels.len(),
{
    let name = name_bytes(labels);
    assert(query.subrange(at, at + name.len())[0] == query[at]);
    if labels.len() > 0 {
        let rest = labels.drop_first();
        assert forall|k: int| 0 <= k < rest.len() implies 0 < (#[trigger] rest[k]).len() < 64 by {
            assert(rest[k] == labels[k + 1]);
        }
        let n = labels[0].len() as int;
        assert(0 < labels[0].len() < 64);
        let after = name_bytes(rest);
        assert(name.len() == 1 + n + after.len());
        assert(query.subrange(at + 1 + n, at + 1 + n + after.len()) =~= after) by {
            assert forall|i: int| 0 <= i < after.len() implies query[at + 1 + n + i] == after[i] by {
                assert(query.subrange(at, at + name.len())[1 + n + i] == name[1 + n + i]);
            }
        }
        lemma_name_end(query, at + 1 + n, rest);
    }
}

/// The question for a name, of whatever type and class, is found in its query, and the
/// reply says in one answer, for that very name, that its address is the portal's and
/// is not to be remembered.
pub proof fn law_every_name_leads_to_the_portal(
    head: Seq<u8>,
    labels: Seq<Seq<u8>>,
    kind: Seq<u8>,
    rest: Seq<u8>,
)
    requires
        head.len() == 12,
        kind.len() == 4,
        forall|k: int| 0 <= k < labels.len() ==> 0 < (#[trigger] labels[k]).len() < 64,
    ensures
        ({
            let query = head + name_bytes(labels) + kind + rest;
            let end = (12 + name_bytes(labels).len() + 4) as int;
            let reply = dns_reply(query, end);
            &&& question_end(query) == Some(end)
            &&& reply.subrange(12, end) == name_bytes(labels) + kind
            &&& reply.take(2) == head.take(2)
            &&& reply[2] >= 128 && reply[3] % 16 == 0
            &&& reply.subrange(4, 12) == seq![0u8, 1, 0, 1, 0, 0, 0, 0]
            &&& reply.subrange(end, end + 12) == seq![0xc0u8, 12, 0, 1, 0, 1, 0, 0, 0, 0, 0, 4]
            &&& reply.skip(end + 12) == seq![192u8, 168, 71, 1]
        }),
{
    let name = name_bytes(labels);
    let query = head + name + kind + rest;
    let end = (12 + name.len() + 4) as int;
    assert(query.subrange(12, end - 4) =~= name);
    lemma_name_end(query, 12, labels);
    let reply = dns_reply(query, end);
    assert(query.subrange(12, end) =~= name + kind);
    assert(query.take(2) =~= head.take(2));
    assert(reply.subrange(12, end) =~= name + kind);
    assert(reply.take(2) =~= head.take(2));
    assert(reply.subrange(4, 12) =~= seq![0u8, 1, 0, 1, 0, 0, 0, 0]);
    assert(reply.subrange(end, end + 12) =~= seq![0xc0u8, 12, 0, 1, 0, 1, 0, 0, 0, 0, 0, 4]);
    assert(reply.skip(end + 12) =~= seq![192u8, 168, 71, 1]);
}

/// What is stored matters to a form if and only if the form names a network and leaves
/// the password blank.
pub proof fn law_only_a_blank_password_is_looked_up(
    form: (Seq<char>, Seq<char>),
    one: Option<(Seq<char>, Seq<char>)>,
    other: Option<(Seq<char>, Seq<char>)>,
)
    ensures
        !leaves_password_blank(form) ==> credentials_kept(form, one) == credentials_kept(
            form,
            other,
        ),
        leaves_password_blank(form) ==> credentials_kept(form, Some((form.0, seq!['x'])))
            != credentials_kept(form, None),
{
    if leaves_password_blank(form) {
        assert(seq!['x'].len() == 1);
    }
}

} // verus!
