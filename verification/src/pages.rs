//! The pages of the setup portal.

use vstd::prelude::*;
use vstd::string::*;

use crate::text::chars_of;
use crate::wifi_config::{
    stored_form, AppSettings, BatteryBrightness, WifiCredentials, WirelessCodec,
};

verus! {

/// The page that follows saved credentials.
pub const SAVED_HTML: &'static str = r#"<!doctype html>
<html>
<head><meta name="viewport" content="width=device-width,initial-scale=1"><title>Saved</title></head>
<body style="font-family:system-ui;background:#07101d;color:#edf4ff;display:grid;place-items:center;min-height:100vh;margin:0">
<main style="width:min(360px,calc(100vw - 32px));text-align:center">
<h1>Saved</h1>
<p>The StickS3 is rebooting into mic mode.</p>
</main>
</body>
</html>
"#;

/// The page that follows a request to reboot.
pub const REBOOT_HTML: &'static str = r#"<!doctype html>
<html>
<head><meta name="viewport" content="width=device-width,initial-scale=1"><title>Rebooting</title></head>
<body style="font-family:system-ui;background:#07101d;color:#edf4ff;display:grid;place-items:center;min-height:100vh;margin:0">
<main style="width:min(360px,calc(100vw - 32px));text-align:center">
<h1>Rebooting</h1>
<p>The StickS3 is returning to mic mode.</p>
</main>
</body>
</html>
"#;

pub const PAGE_0: &'static str = r#"<!doctype html>
<html>
<head>
<meta name="viewport" content="width=device-width,initial-scale=1">
<title>M5 Mic Settings</title>
<style>
*{box-sizing:border-box}
html{font-family:-apple-system,BlinkMacSystemFont,"Segoe UI",sans-serif;background:#070b12;color:#eef4ff;-webkit-font-smoothing:antialiased}
body{margin:0;min-height:100vh;padding:18px;display:flex;justify-content:center;background:#070b12}
main{width:min(440px,100%);align-self:flex-start;padding:22px 20px 24px;border:1px solid #23314b;background:#0d1422;border-radius:18px;box-shadow:0 18px 60px rgba(0,0,0,.38)}
button,input{touch-action:manipulation}
.top{display:flex;align-items:flex-start;justify-content:space-between;gap:18px;margin-bottom:18px}
.eyebrow{margin:0 0 4px;color:#7f91ad;font-size:12px;font-weight:700;letter-spacing:.08em;text-transform:uppercase}
h1{font-size:32px;line-height:1;margin:0}
h2{font-size:13px;line-height:1;margin:24px 0 12px;color:#9fb0c7;font-weight:800;letter-spacing:.08em;text-transform:uppercase}
p{color:#9fb0c7;margin:0;line-height:1.45}
.pill{padding:7px 10px;border:1px solid #334765;border-radius:999px;color:#40c4ff;font-size:12px;font-weight:800;background:#0a111d}
.status{display:flex;align-items:center;justify-content:space-between;gap:14px;padding:12px 0;border-top:1px solid #23314b;border-bottom:1px solid #23314b;color:#9fb0c7;font-size:13px}
.status strong{color:#eef4ff;font-size:14px;text-align:right;overflow:hidden;text-overflow:ellipsis;white-space:nowrap}
.metrics{display:grid;grid-template-columns:1fr 1fr;gap:10px;margin-top:12px}
.metric{padding:13px 12px;border:1px solid #23314b;border-radius:12px;background:#09101b}
.metric span{display:block;color:#7f91ad;font-size:12px;margin-bottom:7px}
.metric strong{display:block;color:#eef4ff;font-size:20px;line-height:1}
form{margin:0;padding:0}
.field{margin-top:14px}
label.label{display:block;font-size:13px;color:#9fb0c7;margin:0 0 7px;font-weight:700}
input[type=text],input[type=password]{width:100%;font:inherit;color:#eef4ff;background:#070b12;border:1px solid #334765;border-radius:12px;padding:14px 13px;outline:none}
input[type=text]:focus,input[type=password]:focus{border-color:#40c4ff;box-shadow:0 0 0 3px rgba(64,196,255,.14)}
.seg{display:grid;grid-template-columns:1fr 1fr;padding:4px;border:1px solid #334765;border-radius:14px;background:#070b12;gap:4px}
.seg input{position:absolute;opacity:0;pointer-events:none}
.seg span{display:block;text-align:center;padding:11px 8px;border-radius:10px;color:#9fb0c7;font-weight:800}
.seg input:checked+span{background:#ef2e46;color:white}
.seg input:focus-visible+span{box-shadow:0 0 0 3px rgba(255,255,255,.22)}
.switch{display:flex;align-items:center;justify-content:space-between;gap:14px;margin-top:14px;padding:13px 0;border-top:1px solid #23314b;border-bottom:1px solid #23314b;color:#eef4ff;font-weight:700}
.switch small{display:block;margin-top:4px;color:#7f91ad;font-weight:500;line-height:1.35}
.switch input{position:absolute;opacity:0;pointer-events:none}
.track{width:48px;height:28px;border-radius:999px;background:#263856;position:relative;flex:0 0 auto;transition:background-color .15s ease}
.track:before{content:"";position:absolute;width:22px;height:22px;left:3px;top:3px;border-radius:50%;background:#9fb0c7;transition:transform .15s ease,background-color .15s ease}
.switch input:checked+.track{background:#1f9f62}
.switch input:checked+.track:before{transform:translateX(20px);background:white}
.switch input:focus-visible+.track{box-shadow:0 0 0 3px rgba(255,255,255,.22)}
button{width:100%;min-height:46px;margin-top:16px;border:0;border-radius:12px;padding:14px;font:800 15px system-ui;background:#ef2e46;color:white}
button:active{transform:scale(.985)}
button.secondary{margin-top:10px;background:#172338;color:#eef4ff;border:1px solid #334765}
.hint{font-size:12px;margin-top:9px;color:#7f91ad}
</style>
</head>
<body>
<main>
<div class="top">
<div>
<p class="eyebrow">M5StickS3</p>
<h1>m5mic</h1>
</div>
<div class="pill">Setup</div>
</div>
<div class="status"><span>Network</span><strong>"#;

pub const PAGE_1: &'static str = r#"</strong></div>
<h2>Modes</h2>
<div class="metrics">
<div class="metric"><span>BtnB cycle</span><strong>"#;

pub const PAGE_2: &'static str = r#"</strong></div>
<div class="metric"><span>Wi-Fi codec</span><strong>"#;

pub const PAGE_3: &'static str = r#"</strong></div>
<div class="metric"><span>Battery screen</span><strong>"#;

pub const PAGE_4: &'static str = r#"</strong></div>
<div class="metric"><span>Rec saver</span><strong>"#;

pub const PAGE_5: &'static str = r#"</strong></div>
</div>
<form method="post" action="/save">
<div class="field">
<label class="label">Wi-Fi audio codec</label>
<div class="seg">
<label><input type="radio" name="wireless_codec" value="pcm_s16le""#;

pub const PAGE_6: &'static str = r#"><span>PCM</span></label>
<label><input type="radio" name="wireless_codec" value="ima_adpcm4""#;

pub const PAGE_7: &'static str = r#"><span>ADPCM</span></label>
</div>
</div>
<div class="field">
<label class="label">Battery screen brightness</label>
<div class="seg">
<label><input type="radio" name="battery_brightness" value="dim""#;

pub const PAGE_8: &'static str = r#"><span>Dim</span></label>
<label><input type="radio" name="battery_brightness" value="full""#;

pub const PAGE_9: &'static str = r#"><span>Full</span></label>
</div>
</div>
<label class="switch">
<span>Recording saver<small>Pause meters on battery. BtnB toggles screen off while recording.</small></span>
<input type="checkbox" name="recording_battery_saver" value="1""#;

pub const PAGE_10: &'static str = r#"><span class="track"></span>
</label>
<h2>Wi-Fi</h2>
<div class="field">
<label class="label">Wi-Fi name</label>
<input type="text" name="ssid" maxlength="32" autocomplete="off" autocapitalize="none" spellcheck="false" value=""#;

pub const PAGE_11: &'static str = r#"">
</div>
<div class="field">
<label class="label">Password</label>
<input name="password" maxlength="64" type="password" autocomplete="current-password">
</div>
<p class="hint">"#;

pub const PAGE_12: &'static str = r#"</p>
<button type="submit">Save and Reboot</button>
</form>
<form method="post" action="/reboot">
<button class="secondary" type="submit">Reboot to Mic Mode</button>
</form>
<p class="hint">Open http://192.168.71.1 if the page does not appear automatically.</p>
</main>
</body>
</html>
"#;

/// How a character is written in a page.
pub open spec fn escaped_char(c: char) -> Seq<char> {
    if c == '&' {
        "&amp;"@
    } else if c == '<' {
        "&lt;"@
    } else if c == '>' {
        "&gt;"@
    } else if c == '"' {
        "&quot;"@
    } else if c == '\'' {
        "&#39;"@
    } else {
        seq![c]
    }
}

/// How text is written in a page.
pub open spec fn escaped(s: Seq<char>) -> Seq<char>
    decreases s.len(),
{
    if s.len() == 0 {
        Seq::empty()
    } else {
        escaped(s.drop_last()) + escaped_char(s.last())
    }
}

/// Whatever the text, nothing in its escaped form opens a tag or closes an
/// attribute.
pub proof fn law_escaped_text_is_inert(s: Seq<char>)
    ensures
        forall|i: int|
            0 <= i < escaped(s).len() ==> {
                let c = #[trigger] escaped(s)[i];
                c != '<' && c != '>' && c != '"' && c != '\''
            },
    decreases s.len(),
{
    if s.len() > 0 {
        law_escaped_text_is_inert(s.drop_last());
        reveal_strlit("&amp;");
        reveal_strlit("&lt;");
        reveal_strlit("&gt;");
        reveal_strlit("&quot;");
        reveal_strlit("&#39;");
        let before = escaped(s.drop_last());
        let last = escaped_char(s.last());
        assert forall|i: int| 0 <= i < escaped(s).len() implies {
            let c = #[trigger] escaped(s)[i];
            c != '<' && c != '>' && c != '"' && c != '\''
        } by {
            if i < before.len() {
                assert(escaped(s)[i] == before[i]);
            } else {
                assert(escaped(s)[i] == last[i - before.len()]);
            }
        }
    }
}

pub fn escape_html(input: &str) -> (output: String)
    ensures
        output@ == escaped(input@),
{
    let chars = chars_of(input);
    let mut output = String::new();
    let mut i: usize = 0;
    assert(input@.take(0) =~= Seq::<char>::empty());
    while i < chars.len()
        invariant
            i <= chars@.len(),
            chars@ == input@,
            output@ == escaped(input@.take(i as int)),
        decreases chars@.len() - i,
    {
        let c: char = chars[i];
        let ghost before = output@;
        assert(input@.take(i + 1).drop_last() =~= input@.take(i as int));
        if c == '&' {
            output.push_str("&amp;");
        } else if c == '<' {
            output.push_str("&lt;");
        } else if c == '>' {
            output.push_str("&gt;");
        } else if c == '"' {
            output.push_str("&quot;");
        } else if c == '\'' {
            output.push_str("&#39;");
        } else {
            output.push(c);
            assert(output@ =~= before + seq![c]);
        }
        i += 1;
    }
    assert(input@.take(i as int) =~= input@);
    output
}

/// What a page says of the network; `saved` is the name of the one that is stored.
pub open spec fn status_text(saved: Option<Seq<char>>) -> Seq<char> {
    match saved {
        Some(ssid) => "Saved: "@ + escaped(ssid),
        None => "Not configured"@,
    }
}

pub open spec fn ssid_text(saved: Option<Seq<char>>) -> Seq<char> {
    match saved {
        Some(ssid) => escaped(ssid),
        None => Seq::empty(),
    }
}

pub open spec fn password_hint(saved: Option<Seq<char>>) -> &'static str {
    if saved is Some {
        "Leave blank to keep the current password when the Wi-Fi name is unchanged."
    } else {
        "Password is optional for open networks."
    }
}

/// What marks a choice as made.
pub open spec fn checked(chosen: bool) -> &'static str {
    if chosen {
        " checked"
    } else {
        ""
    }
}

pub open spec fn brightness_name(settings: AppSettings) -> &'static str {
    match settings.battery_brightness {
        BatteryBrightness::Dim => "dim",
        BatteryBrightness::Full => "full",
    }
}

pub open spec fn saver_name(settings: AppSettings) -> &'static str {
    if settings.recording_battery_saver {
        "on"
    } else {
        "off"
    }
}

/// The page with the settings.
pub open spec fn settings_page(saved: Option<Seq<char>>, settings: AppSettings) -> Seq<char> {
    PAGE_0@ + status_text(saved)
        + PAGE_1@ + "Wi-Fi USB"@
        + PAGE_2@ + settings.wireless_codec.short_name()@
        + PAGE_3@ + brightness_name(settings)@
        + PAGE_4@ + saver_name(settings)@
        + PAGE_5@ + checked(settings.wireless_codec == WirelessCodec::PcmS16Le)@
        + PAGE_6@ + checked(settings.wireless_codec == WirelessCodec::ImaAdpcm4)@
        + PAGE_7@ + checked(settings.battery_brightness == BatteryBrightness::Dim)@
        + PAGE_8@ + checked(settings.battery_brightness == BatteryBrightness::Full)@
        + PAGE_9@ + checked(settings.recording_battery_saver)@
        + PAGE_10@ + ssid_text(saved)
        + PAGE_11@ + password_hint(saved)@
        + PAGE_12@
}

fn checked_mark(chosen: bool) -> (mark: &'static str)
    ensures
        mark == checked(chosen),
{
    if chosen {
        " checked"
    } else {
        ""
    }
}

pub fn settings_html(saved: &Option<WifiCredentials>, settings: AppSettings) -> (html: String)
    ensures
        html@ == settings_page(
            match *saved {
                Some(credentials) => Some(credentials.ssid@),
                None => None,
            },
            settings,
        ),
{
    let (status, ssid_value, hint) = match saved {
        Some(credentials) => {
            let ssid = escape_html(credentials.ssid.as_str());
            let mut status = "Saved: ".to_owned();
            status.push_str(ssid.as_str());
            (
                status,
                ssid,
                "Leave blank to keep the current password when the Wi-Fi name is unchanged.",
            )
        },
        None => (
            "Not configured".to_owned(),
            String::new(),
            "Password is optional for open networks.",
        ),
    };
    let battery_mode = match settings.battery_brightness {
        BatteryBrightness::Dim => "dim",
        BatteryBrightness::Full => "full",
    };
    let saver_mode = if settings.recording_battery_saver {
        "on"
    } else {
        "off"
    };
    let mut html = PAGE_0.to_owned();
    html.push_str(status.as_str());
    html.push_str(PAGE_1);
    html.push_str("Wi-Fi USB");
    html.push_str(PAGE_2);
    html.push_str(settings.wireless_codec.label());
    html.push_str(PAGE_3);
    html.push_str(battery_mode);
    html.push_str(PAGE_4);
    html.push_str(saver_mode);
    html.push_str(PAGE_5);
    html.push_str(checked_mark(settings.wireless_codec == WirelessCodec::PcmS16Le));
    html.push_str(PAGE_6);
    html.push_str(checked_mark(settings.wireless_codec == WirelessCodec::ImaAdpcm4));
    html.push_str(PAGE_7);
    html.push_str(checked_mark(settings.battery_brightness == BatteryBrightness::Dim));
    html.push_str(PAGE_8);
    html.push_str(checked_mark(settings.battery_brightness == BatteryBrightness::Full));
    html.push_str(PAGE_9);
    html.push_str(checked_mark(settings.recording_battery_saver));
    html.push_str(PAGE_10);
    html.push_str(ssid_value.as_str());
    html.push_str(PAGE_11);
    html.push_str(hint);
    html.push_str(PAGE_12);
    html
}

/// The character that a page's text begins with, and how many characters it is written
/// in: a reference, or the character itself.
pub open spec fn first_shown(text: Seq<char>) -> (char, nat) {
    if text.len() >= 5 && text.take(5) == "&amp;"@ {
        ('&', 5)
    } else if text.len() >= 4 && text.take(4) == "&lt;"@ {
        ('<', 4)
    } else if text.len() >= 4 && text.take(4) == "&gt;"@ {
        ('>', 4)
    } else if text.len() >= 6 && text.take(6) == "&quot;"@ {
        ('"', 6)
    } else if text.len() >= 5 && text.take(5) == "&#39;"@ {
        ('\'', 5)
    } else {
        (text[0], 1)
    }
}

/// What a browser shows for the text of a page.
pub open spec fn shown(text: Seq<char>) -> Seq<char>
    decreases text.len(),
{
    if text.len() == 0 {
        Seq::empty()
    } else {
        seq![first_shown(text).0] + shown(text.skip(first_shown(text).1 as int))
    }
}

/// Whatever the text, a browser shows it as it is.
pub proof fn law_escaped_text_is_shown_as_it_is(s: Seq<char>)
    ensures
        shown(escaped(s)) == s,
    decreases s.len(),
{
    if s.len() > 0 {
        let c = s[0];
        let rest = s.drop_first();
        lemma_escaped_from_the_front(s);
        law_escaped_text_is_shown_as_it_is(rest);
        lemma_first_shown(c, escaped(rest));
        let whole = escaped_char(c) + escaped(rest);
        assert(whole.skip(escaped_char(c).len() as int) =~= escaped(rest));
        assert(seq![c] + rest =~= s);
    }
}

proof fn lemma_escaped_from_the_front(s: Seq<char>)
    requires
        s.len() > 0,
    ensures
        escaped(s) == escaped_char(s[0]) + escaped(s.drop_first()),
    decreases s.len(),
{
    if s.len() == 1 {
        assert(s.drop_last() =~= Seq::<char>::empty());
        assert(s.drop_first() =~= Seq::<char>::empty());
        assert(escaped(s) =~= escaped_char(s[0]) + escaped(s.drop_first()));
    } else {
        lemma_escaped_from_the_front(s.drop_last());
        assert(s.drop_last().drop_first() =~= s.drop_first().drop_last());
        assert(escaped(s) =~= escaped_char(s[0]) + escaped(s.drop_first()));
    }
}

proof fn lemma_first_shown(c: char, rest: Seq<char>)
    ensures
        ({
            let whole = escaped_char(c) + rest;
            &&& whole.len() > 0
            &&& first_shown(whole) == (c, escaped_char(c).len())
        }),
{
    reveal_strlit("&amp;");
    reveal_strlit("&lt;");
    reveal_strlit("&gt;");
    reveal_strlit("&quot;");
    reveal_strlit("&#39;");
    let whole = escaped_char(c) + rest;
    let n = escaped_char(c).len() as int;
    assert(whole.take(n) =~= escaped_char(c));
    assert("&amp;"@[1] == 'a' && "&lt;"@[1] == 'l' && "&gt;"@[1] == 'g' && "&quot;"@[1] == 'q'
        && "&#39;"@[1] == '#');
    assert("&amp;"@[0] == '&' && "&lt;"@[0] == '&' && "&gt;"@[0] == '&' && "&quot;"@[0] == '&'
        && "&#39;"@[0] == '&');
    assert forall|k: int| 2 <= k <= whole.len() implies whole[1] == #[trigger] whole.take(
        k,
    )[1] by {}
    assert forall|k: int| 1 <= k <= whole.len() implies whole[0] == #[trigger] whole.take(
        k,
    )[0] by {}
    assert(whole[0] == escaped_char(c)[0]);
    if n > 1 {
        assert(whole[1] == escaped_char(c)[1]);
    }
}

/// Where a part stands in a page.
pub open spec fn stands_in(page: Seq<char>, part: Seq<char>, at: int) -> bool {
    0 <= at && at + part.len() <= page.len() && page.subrange(at, at + part.len()) == part
}

/// The page marks the one codec and the one brightness that are set, and no other: the
/// mark stands right behind the value of the choice.
pub proof fn law_the_page_marks_what_is_set(saved: Option<Seq<char>>, settings: AppSettings)
    ensures
        ({
            let page = settings_page(saved, settings);
            let mark = " checked"@;
            &&& settings.wireless_codec == WirelessCodec::PcmS16Le ==> exists|at: int|
                stands_in(page, PAGE_5@ + mark + PAGE_6@ + PAGE_7@, at)
            &&& settings.wireless_codec == WirelessCodec::ImaAdpcm4 ==> exists|at: int|
                stands_in(page, PAGE_5@ + PAGE_6@ + mark + PAGE_7@, at)
            &&& settings.battery_brightness == BatteryBrightness::Dim ==> exists|at: int|
                stands_in(page, PAGE_7@ + mark + PAGE_8@ + PAGE_9@, at)
            &&& settings.battery_brightness == BatteryBrightness::Full ==> exists|at: int|
                stands_in(page, PAGE_7@ + PAGE_8@ + mark + PAGE_9@, at)
            &&& settings.recording_battery_saver ==> exists|at: int|
                stands_in(page, PAGE_9@ + mark + PAGE_10@, at)
            &&& !settings.recording_battery_saver ==> exists|at: int|
                stands_in(page, PAGE_9@ + PAGE_10@, at)
        }),
{
    reveal_strlit("");
    let none = ""@;
    let mark = " checked"@;
    assert(none =~= Seq::<char>::empty());
    let pcm = checked(settings.wireless_codec == WirelessCodec::PcmS16Le)@;
    let adpcm = checked(settings.wireless_codec == WirelessCodec::ImaAdpcm4)@;
    let dim = checked(settings.battery_brightness == BatteryBrightness::Dim)@;
    let full = checked(settings.battery_brightness == BatteryBrightness::Full)@;
    let saver = checked(settings.recording_battery_saver)@;
    let front = PAGE_0@ + status_text(saved) + PAGE_1@ + "Wi-Fi USB"@ + PAGE_2@
        + settings.wireless_codec.short_name()@ + PAGE_3@ + brightness_name(settings)@ + PAGE_4@
        + saver_name(settings)@;
    let codecs = lemma_choices_stand(front, PAGE_5@, pcm, PAGE_6@, adpcm, PAGE_7@);
    let before_screens = front + PAGE_5@ + pcm + PAGE_6@ + adpcm;
    let screens = lemma_choices_stand(before_screens, PAGE_7@, dim, PAGE_8@, full, PAGE_9@);
    let before_savers = before_screens + PAGE_7@ + dim + PAGE_8@ + full;
    let savers = lemma_choices_stand(before_savers, PAGE_9@, saver, PAGE_10@, none, none);
    let first = front + PAGE_5@ + pcm + PAGE_6@ + adpcm + PAGE_7@;
    let second = first + dim + PAGE_8@ + full + PAGE_9@;
    let third = second + saver + PAGE_10@;
    assert(third + none + none =~= third);
    lemma_stands_in_more(first, codecs, front.len() as int, dim, PAGE_8@, full, PAGE_9@);
    lemma_stands_in_more(second, codecs, front.len() as int, saver, PAGE_10@, none, none);
    let at = before_screens.len() as int;
    lemma_stands_in_more(second, screens, at, saver, PAGE_10@, none, none);
    let later = before_savers.len() as int;
    let name = ssid_text(saved);
    let hint = password_hint(saved)@;
    lemma_stands_in_more(third, codecs, front.len() as int, name, PAGE_11@, hint, PAGE_12@);
    lemma_stands_in_more(third, screens, at, name, PAGE_11@, hint, PAGE_12@);
    lemma_stands_in_more(third, savers, later, name, PAGE_11@, hint, PAGE_12@);
    lemma_without_mark(PAGE_5@, pcm, PAGE_6@, adpcm, PAGE_7@);
    lemma_without_mark(PAGE_7@, dim, PAGE_8@, full, PAGE_9@);
    lemma_without_mark(PAGE_9@, saver, PAGE_10@, none, none);
    let page = settings_page(saved, settings);
    assert(stands_in(page, codecs, front.len() as int));
    assert(stands_in(page, screens, at));
    assert(stands_in(page, savers, later));
    if settings.wireless_codec == WirelessCodec::PcmS16Le {
        assert(codecs == PAGE_5@ + mark + PAGE_6@ + PAGE_7@);
    } else {
        assert(codecs == PAGE_5@ + PAGE_6@ + mark + PAGE_7@);
    }
    if settings.battery_brightness == BatteryBrightness::Dim {
        assert(screens == PAGE_7@ + mark + PAGE_8@ + PAGE_9@);
    } else {
        assert(screens == PAGE_7@ + PAGE_8@ + mark + PAGE_9@);
    }
    if settings.recording_battery_saver {
        assert(savers == PAGE_9@ + mark + PAGE_10@);
    } else {
        assert(savers == PAGE_9@ + PAGE_10@);
    }
}

/// Two choices with their marks stand where they were put.
proof fn lemma_choices_stand(
    front: Seq<char>,
    a: Seq<char>,
    b: Seq<char>,
    c: Seq<char>,
    d: Seq<char>,
    e: Seq<char>,
) -> (part: Seq<char>)
    ensures
        part == a + b + c + d + e,
        stands_in(front + a + b + c + d + e, part, front.len() as int),
{
    let part = a + b + c + d + e;
    let n = front.len() as int;
    assert(front + a + b + c + d + e =~= front + part);
    assert((front + part).subrange(n, n + part.len()) =~= part);
    part
}

/// What stands in a page still does when the page goes on.
proof fn lemma_stands_in_more(
    page: Seq<char>,
    part: Seq<char>,
    at: int,
    a: Seq<char>,
    b: Seq<char>,
    c: Seq<char>,
    d: Seq<char>,
)
    requires
        stands_in(page, part, at),
    ensures
        stands_in(page + a + b + c + d, part, at),
{
    assert((page + a + b + c + d).subrange(at, at + part.len()) =~= page.subrange(
        at,
        at + part.len(),
    ));
}

/// A mark that is empty can be left out.
proof fn lemma_without_mark(
    a: Seq<char>,
    b: Seq<char>,
    c: Seq<char>,
    d: Seq<char>,
    e: Seq<char>,
)
    ensures
        b.len() == 0 ==> a + b + c + d + e == a + c + d + e,
        d.len() == 0 ==> a + b + c + d + e == a + b + c + e,
        d.len() == 0 && e.len() == 0 ==> a + b + c + d + e == a + b + c,
        b.len() == 0 && d.len() == 0 && e.len() == 0 ==> a + b + c + d + e == a + c,
{
    if b.len() == 0 {
        assert(a + b + c + d + e =~= a + c + d + e);
    }
    if d.len() == 0 {
        assert(a + b + c + d + e =~= a + b + c + e);
    }
    if d.len() == 0 && e.len() == 0 {
        assert(a + b + c + d + e =~= a + b + c);
        if b.len() == 0 {
            assert(a + b + c + d + e =~= a + c);
        }
    }
}

/// The page shows the name of the network that is stored, as text and in its field, and
/// says where there is none.
pub proof fn law_the_page_shows_the_stored_network(ssid: Seq<char>)
    ensures
        shown(ssid_text(Some(ssid))) == ssid,
        status_text(Some(ssid)) == "Saved: "@ + ssid_text(Some(ssid)),
        ssid_text(None) == Seq::<char>::empty(),
{
    law_escaped_text_is_shown_as_it_is(ssid);
}

/// The page says that a blank password keeps the current one if and only if there is a
/// network whose password could be kept, and speaks of the settings as they are stored.
pub proof fn law_the_page_speaks_of_what_is_stored(
    saved: Option<Seq<char>>,
    settings: AppSettings,
)
    ensures
        saved is Some ==> password_hint(saved)@
            == "Leave blank to keep the current password when the Wi-Fi name is unchanged."@,
        saved is None ==> password_hint(saved)@ == "Password is optional for open networks."@,
        brightness_name(settings) == stored_form(settings).brightness,
        saver_name(settings)@ == if settings.recording_battery_saver {
            "on"@
        } else {
            "off"@
        },
        saved is None ==> status_text(saved) == "Not configured"@,
{
}

} // verus!
