//! Wi-Fi credentials and settings, as they are kept in flash.

use vstd::prelude::*;
use vstd::string::*;
use vstd::utf8::{encode_utf8, encode_utf8_decode_utf8};

use crate::frame::Codec;
use crate::text::{is_capital_of, law_case_is_ignored, same_ignoring_case, text_equal};

verus! {

pub const NAMESPACE: &'static str = "m5mic";

pub const KEY_SSID: &'static str = "wifi_ssid";

pub const KEY_PASS: &'static str = "wifi_pass";

pub const KEY_BATTERY_BRIGHTNESS: &'static str = "bat_bright";

pub const KEY_RECORDING_BATTERY_SAVER: &'static str = "rec_bat_save";

pub const KEY_WIRELESS_CODEC: &'static str = "wifi_codec";

#[derive(Debug, Clone, PartialEq, Eq)]
pub struct WifiCredentials {
    pub ssid: String,
    pub password: String,
}

#[derive(Debug, Clone, Copy, PartialEq, Eq, Structural)]
pub enum BatteryBrightness {
    Dim,
    Full,
}

#[derive(Debug, Clone, Copy, PartialEq, Eq, Structural)]
pub enum WirelessCodec {
    PcmS16Le,
    ImaAdpcm4,
}

impl WirelessCodec {
    pub open spec fn name(self) -> &'static str {
        match self {
            WirelessCodec::PcmS16Le => "pcm_s16le",
            WirelessCodec::ImaAdpcm4 => "ima_adpcm4",
        }
    }

    pub fn as_str(self) -> (name: &'static str)
        ensures
            name == self.name(),
    {
        match self {
            WirelessCodec::PcmS16Le => "pcm_s16le",
            WirelessCodec::ImaAdpcm4 => "ima_adpcm4",
        }
    }

    pub open spec fn short_name(self) -> &'static str {
        match self {
            WirelessCodec::PcmS16Le => "PCM",
            WirelessCodec::ImaAdpcm4 => "ADPCM",
        }
    }

    pub fn label(self) -> (label: &'static str)
        ensures
            label == self.short_name(),
    {
        match self {
            WirelessCodec::PcmS16Le => "PCM",
            WirelessCodec::ImaAdpcm4 => "ADPCM",
        }
    }

    pub fn protocol_codec(self) -> (codec: Codec)
        ensures
            codec == match self {
                WirelessCodec::PcmS16Le => Codec::PcmS16Le,
                WirelessCodec::ImaAdpcm4 => Codec::ImaAdpcm4,
            },
    {
        match self {
            WirelessCodec::PcmS16Le => Codec::PcmS16Le,
            WirelessCodec::ImaAdpcm4 => Codec::ImaAdpcm4,
        }
    }
}

#[derive(Debug, Clone, Copy, PartialEq, Eq, Structural)]
pub struct AppSettings {
    pub battery_brightness: BatteryBrightness,
    pub recording_battery_saver: bool,
    pub wireless_codec: WirelessCodec,
}

/// The settings of a device that has none stored.
pub open spec fn default_settings() -> AppSettings {
    AppSettings {
        battery_brightness: BatteryBrightness::Dim,
        recording_battery_saver: true,
        wireless_codec: WirelessCodec::PcmS16Le,
    }
}

impl Default for AppSettings {
    fn default() -> (settings: AppSettings)
        ensures
            settings == default_settings(),
    {
        AppSettings {
            battery_brightness: BatteryBrightness::Dim,
            recording_battery_saver: true,
            wireless_codec: WirelessCodec::PcmS16Le,
        }
    }
}

#[derive(Debug, Clone, Copy, PartialEq, Eq, Structural)]
pub enum CredentialsError {
    NoFallbackSsid,
    NoFallbackPassword,
    SsidMissing,
    SsidTooLong,
    PasswordTooLong,
}

impl CredentialsError {
    pub fn message(self) -> (message: &'static str)
        ensures
            message == match self {
                CredentialsError::NoFallbackSsid => "WIFI_SSID is required",
                CredentialsError::NoFallbackPassword => "WIFI_PASS is required",
                CredentialsError::SsidMissing => "wifi ssid is required",
                CredentialsError::SsidTooLong => "wifi ssid is too long",
                CredentialsError::PasswordTooLong => "wifi password is too long",
            },
    {
        match self {
            CredentialsError::NoFallbackSsid => "WIFI_SSID is required",
            CredentialsError::NoFallbackPassword => "WIFI_PASS is required",
            CredentialsError::SsidMissing => "wifi ssid is required",
            CredentialsError::SsidTooLong => "wifi ssid is too long",
            CredentialsError::PasswordTooLong => "wifi password is too long",
        }
    }
}

/// What keeps credentials from being used.
pub open spec fn invalid(ssid: Seq<char>, password: Seq<char>) -> Option<CredentialsError> {
    if ssid.len() == 0 {
        Some(CredentialsError::SsidMissing)
    } else if encode_utf8(ssid).len() > 32 {
        Some(CredentialsError::SsidTooLong)
    } else if encode_utf8(password).len() > 64 {
        Some(CredentialsError::PasswordTooLong)
    } else {
        None
    }
}

pub fn validate_credentials(credentials: &WifiCredentials) -> (result: Result<(), CredentialsError>)
    ensures
        match result {
            Ok(()) => invalid(credentials.ssid@, credentials.password@) is None,
            Err(error) => invalid(credentials.ssid@, credentials.password@) == Some(error),
        },
{
    if credentials.ssid.as_str().is_empty() {
        return Err(CredentialsError::SsidMissing);
    }
    if credentials.ssid.as_str().as_bytes().len() > 32 {
        return Err(CredentialsError::SsidTooLong);
    }
    if credentials.password.as_str().as_bytes().len() > 64 {
        return Err(CredentialsError::PasswordTooLong);
    }
    Ok(())
}

/// The name and the password of credentials, as text.
pub open spec fn credentials_text(credentials: WifiCredentials) -> (Seq<char>, Seq<char>) {
    (credentials.ssid@, credentials.password@)
}

/// The text of optional strings.
pub open spec fn optional_text(text: Option<&str>) -> Option<Seq<char>> {
    match text {
        Some(text) => Some(text@),
        None => None,
    }
}

/// The credentials that the firmware was built with, or why there are none.
pub open spec fn fallback(ssid: Option<Seq<char>>, password: Option<Seq<char>>) -> Result<
    (Seq<char>, Seq<char>),
    CredentialsError,
> {
    if ssid is None {
        Err(CredentialsError::NoFallbackSsid)
    } else if password is None {
        Err(CredentialsError::NoFallbackPassword)
    } else {
        match invalid(ssid->0, password->0) {
            Some(error) => Err(error),
            None => Ok((ssid->0, password->0)),
        }
    }
}

pub open spec fn credentials_result(result: Result<WifiCredentials, CredentialsError>) -> Result<
    (Seq<char>, Seq<char>),
    CredentialsError,
> {
    match result {
        Ok(credentials) => Ok(credentials_text(credentials)),
        Err(error) => Err(error),
    }
}

pub fn fallback_credentials(ssid: Option<&str>, password: Option<&str>) -> (result: Result<
    WifiCredentials,
    CredentialsError,
>)
    ensures
        credentials_result(result) == fallback(optional_text(ssid), optional_text(password)),
{
    let ssid = match ssid {
        Some(ssid) => ssid.to_owned(),
        None => return Err(CredentialsError::NoFallbackSsid),
    };
    let password = match password {
        Some(password) => password.to_owned(),
        None => return Err(CredentialsError::NoFallbackPassword),
    };
    let credentials = WifiCredentials { ssid, password };
    match validate_credentials(&credentials) {
        Ok(()) => Ok(credentials),
        Err(error) => Err(error),
    }
}

/// The credentials that what is stored comes to: a name that is not empty, and
/// the password or an empty one.
pub open spec fn stored(ssid: Option<Seq<char>>, password: Option<Seq<char>>) -> Option<
    (Seq<char>, Seq<char>),
> {
    if ssid is None || ssid->0.len() == 0 {
        None
    } else {
        Some(
            (
                ssid->0,
                match password {
                    Some(password) => password,
                    None => Seq::empty(),
                },
            ),
        )
    }
}

pub open spec fn optional_credentials(credentials: Option<WifiCredentials>) -> Option<
    (Seq<char>, Seq<char>),
> {
    match credentials {
        Some(credentials) => Some(credentials_text(credentials)),
        None => None,
    }
}

pub fn stored_credentials(ssid: Option<&str>, password: Option<&str>) -> (credentials: Option<
    WifiCredentials,
>)
    ensures
        optional_credentials(credentials) == stored(optional_text(ssid), optional_text(password)),
{
    let ssid = match ssid {
        Some(ssid) => ssid,
        None => return None,
    };
    if ssid.is_empty() {
        return None;
    }
    let password = match password {
        Some(password) => password.to_owned(),
        None => String::new(),
    };
    Some(WifiCredentials { ssid: ssid.to_owned(), password })
}

/// The credentials to connect with: those that are stored if there are any, and
/// otherwise those that the firmware was built with.
pub open spec fn chosen(
    saved: Option<(Seq<char>, Seq<char>)>,
    ssid: Option<Seq<char>>,
    password: Option<Seq<char>>,
) -> Result<(Seq<char>, Seq<char>), CredentialsError> {
    match saved {
        Some(credentials) => Ok(credentials),
        None => fallback(ssid, password),
    }
}

pub fn choose_credentials(
    saved: Option<WifiCredentials>,
    fallback_ssid: Option<&str>,
    fallback_password: Option<&str>,
) -> (result: Result<WifiCredentials, CredentialsError>)
    ensures
        credentials_result(result) == chosen(
            optional_credentials(saved),
            optional_text(fallback_ssid),
            optional_text(fallback_password),
        ),
{
    match saved {
        Some(credentials) => Ok(credentials),
        None => fallback_credentials(fallback_ssid, fallback_password),
    }
}

/// Stored credentials take priority over those that the firmware was built with,
/// whatever these are.
pub proof fn law_stored_credentials_take_priority(
    ssid: Seq<char>,
    password: Seq<char>,
    fallback_ssid: Option<Seq<char>>,
    fallback_password: Option<Seq<char>>,
)
    requires
        ssid.len() > 0,
    ensures
        chosen(stored(Some(ssid), Some(password)), fallback_ssid, fallback_password) == Ok::<
            (Seq<char>, Seq<char>),
            CredentialsError,
        >((ssid, password)),
{
}

/// How a network is joined: an empty password means an open one.
#[derive(Debug, Clone, Copy, PartialEq, Eq, Structural)]
pub enum WifiAuth {
    Open,
    Wpa2Personal,
}

pub fn auth_method(credentials: &WifiCredentials) -> (auth: WifiAuth)
    ensures
        auth == if credentials.password@.len() == 0 {
            WifiAuth::Open
        } else {
            WifiAuth::Wpa2Personal
        },
{
    if credentials.password.as_str().is_empty() {
        WifiAuth::Open
    } else {
        WifiAuth::Wpa2Personal
    }
}

/// The settings that stored values come to; anything that is missing or not
/// understood gives the default.
pub open spec fn settings_in(
    brightness: Option<Seq<char>>,
    saver: Option<Seq<char>>,
    codec: Option<Seq<char>>,
) -> AppSettings {
    AppSettings {
        battery_brightness: if brightness == Some("full"@) {
            BatteryBrightness::Full
        } else {
            BatteryBrightness::Dim
        },
        recording_battery_saver: saver != Some("0"@),
        wireless_codec: if codec == Some("ima_adpcm4"@) {
            WirelessCodec::ImaAdpcm4
        } else {
            WirelessCodec::PcmS16Le
        },
    }
}

fn holds_text(value: Option<&str>, text: &str) -> (holds: bool)
    ensures
        holds == (optional_text(value) == Some(text@)),
{
    match value {
        Some(value) => text_equal(value, text),
        None => false,
    }
}

pub fn load_settings(brightness: Option<&str>, saver: Option<&str>, codec: Option<&str>) -> (settings:
    AppSettings)
    ensures
        settings == settings_in(
            optional_text(brightness),
            optional_text(saver),
            optional_text(codec),
        ),
{
    AppSettings {
        battery_brightness: if holds_text(brightness, "full") {
            BatteryBrightness::Full
        } else {
            BatteryBrightness::Dim
        },
        recording_battery_saver: !holds_text(saver, "0"),
        wireless_codec: if holds_text(codec, "ima_adpcm4") {
            WirelessCodec::ImaAdpcm4
        } else {
            WirelessCodec::PcmS16Le
        },
    }
}

/// The values under which settings are stored.
#[derive(Debug, Clone, Copy, PartialEq, Eq)]
pub struct StoredSettings {
    pub brightness: &'static str,
    pub saver: &'static str,
    pub codec: &'static str,
}

pub open spec fn stored_form(settings: AppSettings) -> StoredSettings {
    StoredSettings {
        brightness: match settings.battery_brightness {
            BatteryBrightness::Dim => "dim",
            BatteryBrightness::Full => "full",
        },
        saver: if settings.recording_battery_saver {
            "1"
        } else {
            "0"
        },
        codec: settings.wireless_codec.name(),
    }
}

pub fn save_settings(settings: AppSettings) -> (stored: StoredSettings)
    ensures
        stored == stored_form(settings),
{
    StoredSettings {
        brightness: match settings.battery_brightness {
            BatteryBrightness::Dim => "dim",
            BatteryBrightness::Full => "full",
        },
        saver: if settings.recording_battery_saver {
            "1"
        } else {
            "0"
        },
        codec: settings.wireless_codec.as_str(),
    }
}

/// Settings are loaded as they were saved.
pub proof fn law_settings_round_trip(settings: AppSettings)
    ensures
        ({
            let kept = stored_form(settings);
            settings_in(Some(kept.brightness@), Some(kept.saver@), Some(kept.codec@)) == settings
        }),
{
    reveal_strlit("dim");
    reveal_strlit("full");
    reveal_strlit("0");
    reveal_strlit("1");
    reveal_strlit("pcm_s16le");
    reveal_strlit("ima_adpcm4");
    assert("dim"@.len() == 3 && "full"@.len() == 4);
    assert("0"@[0] == '0' && "1"@[0] == '1');
    assert("pcm_s16le"@.len() == 9 && "ima_adpcm4"@.len() == 10);
}

/// A device with nothing stored has the default settings.
pub proof fn law_nothing_stored_gives_the_defaults()
    ensures
        settings_in(None, None, None) == default_settings(),
{
}

/// Credentials can be used if and only if the name has one to thirty-two bytes and the
/// password at most sixty-four; what is wrong with the name is told before what is wrong
/// with the password.
pub proof fn law_credentials_have_their_limits(ssid: Seq<char>, password: Seq<char>)
    ensures
        ({
            let name = encode_utf8(ssid).len();
            let error = invalid(ssid, password);
            &&& error is None <==> 1 <= name <= 32 && encode_utf8(password).len() <= 64
            &&& error == Some(CredentialsError::SsidMissing) <==> name == 0
            &&& error == Some(CredentialsError::SsidTooLong) <==> name > 32
            &&& error == Some(CredentialsError::PasswordTooLong) <==> 1 <= name <= 32
                && encode_utf8(password).len() > 64
        }),
{
    encode_utf8_decode_utf8(ssid);
    if encode_utf8(ssid).len() == 0 {
        assert(encode_utf8(ssid) =~= Seq::<u8>::empty());
        assert(vstd::utf8::decode_utf8(encode_utf8(ssid)).len() == 0);
    }
    if ssid.len() == 0 {
        assert(ssid =~= Seq::<char>::empty());
    }
}

/// The credentials that the firmware was built with are used to the letter where both
/// are there and can be used, and nothing is used in their place.
pub proof fn law_the_built_in_credentials_are_used_whole(
    ssid: Option<Seq<char>>,
    password: Option<Seq<char>>,
)
    ensures
        chosen(None, ssid, password) matches Ok(used) ==> Some(used.0) == ssid && Some(used.1)
            == password,
        chosen(None, ssid, password) is Ok <==> ssid is Some && password is Some && invalid(
            ssid->0,
            password->0,
        ) is None,
        ssid is Some && password is Some && chosen(None, ssid, password) is Err ==> Some(
            chosen(None, ssid, password)->Err_0,
        ) == invalid(ssid->0, password->0),
        ssid is None ==> chosen(None, ssid, password)->Err_0 == CredentialsError::NoFallbackSsid,
        ssid is Some && password is None ==> chosen(None, ssid, password)->Err_0
            == CredentialsError::NoFallbackPassword,
{
}

/// A stored name without a password stands for an open network, and without a stored
/// name there is nothing stored, whatever the password.
pub proof fn law_an_open_network_can_be_stored(
    ssid: Seq<char>,
    password: Option<Seq<char>>,
    fallback_ssid: Option<Seq<char>>,
    fallback_password: Option<Seq<char>>,
)
    requires
        ssid.len() > 0,
    ensures
        stored(Some(ssid), None) == stored(Some(ssid), Some(Seq::empty())),
        stored(Some(ssid), password) matches Some(kept) && kept.0 == ssid,
        password is Some ==> (stored(Some(ssid), password) matches Some(kept) && Some(kept.1)
            == password),
        chosen(stored(Some(Seq::empty()), password), fallback_ssid, fallback_password)
            == chosen(None, fallback_ssid, fallback_password),
        chosen(stored(None, password), fallback_ssid, fallback_password) == chosen(
            None,
            fallback_ssid,
            fallback_password,
        ),
{
}

/// Each stored value decides its own setting and no other, and one that is not known
/// stands for what holds without it.
pub proof fn law_each_value_decides_its_own_setting(
    brightness: Option<Seq<char>>,
    saver: Option<Seq<char>>,
    codec: Option<Seq<char>>,
    chosen: AppSettings,
)
    ensures
        ({
            let loaded = settings_in(brightness, saver, codec);
            let usual = settings_in(None, None, None);
            let form = stored_form(chosen);
            &&& brightness == Some(form.brightness@) ==> loaded.battery_brightness
                == chosen.battery_brightness
            &&& saver == Some(form.saver@) ==> loaded.recording_battery_saver
                == chosen.recording_battery_saver
            &&& codec == Some(form.codec@) ==> loaded.wireless_codec == chosen.wireless_codec
            &&& brightness != Some("full"@) && brightness != Some("dim"@)
                ==> loaded.battery_brightness == usual.battery_brightness
            &&& saver != Some("0"@) && saver != Some("1"@) ==> loaded.recording_battery_saver
                == usual.recording_battery_saver
            &&& codec != Some("pcm_s16le"@) && codec != Some("ima_adpcm4"@)
                ==> loaded.wireless_codec == usual.wireless_codec
            &&& usual == default_settings()
            &&& usual.recording_battery_saver && usual.battery_brightness == BatteryBrightness::Dim
                && usual.wireless_codec == WirelessCodec::PcmS16Le
        }),
{
    reveal_strlit("full");
    reveal_strlit("dim");
    reveal_strlit("0");
    reveal_strlit("1");
    reveal_strlit("pcm_s16le");
    reveal_strlit("ima_adpcm4");
    assert("0"@[0] == '0' && "1"@[0] == '1');
    assert("full"@.len() == 4 && "dim"@.len() == 3);
    assert("pcm_s16le"@.len() == 9 && "ima_adpcm4"@.len() == 10);
}

/// What a codec is called for short stands in its name.
pub proof fn law_short_names_stand_in_names()
    ensures
        same_ignoring_case(
            WirelessCodec::PcmS16Le.short_name()@,
            WirelessCodec::PcmS16Le.name()@.subrange(0, 3),
        ),
        same_ignoring_case(
            WirelessCodec::ImaAdpcm4.short_name()@,
            WirelessCodec::ImaAdpcm4.name()@.subrange(4, 9),
        ),
{
    reveal_strlit("PCM");
    reveal_strlit("ADPCM");
    reveal_strlit("pcm_s16le");
    reveal_strlit("ima_adpcm4");
    let pcm = WirelessCodec::PcmS16Le.name()@.subrange(0, 3);
    assert forall|i: int| 0 <= i < 3 implies #[trigger] "PCM"@[i] == pcm[i] || is_capital_of(
        "PCM"@[i],
        pcm[i],
    ) || is_capital_of(pcm[i], "PCM"@[i]) by {}
    law_case_is_ignored("PCM"@, pcm);
    let adpcm = WirelessCodec::ImaAdpcm4.name()@.subrange(4, 9);
    assert forall|i: int| 0 <= i < 5 implies #[trigger] "ADPCM"@[i] == adpcm[i] || is_capital_of(
        "ADPCM"@[i],
        adpcm[i],
    ) || is_capital_of(adpcm[i], "ADPCM"@[i]) by {}
    law_case_is_ignored("ADPCM"@, adpcm);
}

} // verus!
