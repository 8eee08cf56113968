//! Wi-Fi credentials handed over Bluetooth, sealed with a code that the
//! microphone shows.

use chacha20poly1305::aead::{Aead, Payload};
use chacha20poly1305::{ChaCha20Poly1305, KeyInit, Nonce};
use hkdf::Hkdf;
use sha2::Sha256;
use vstd::prelude::*;
use vstd::string::*;
use vstd::utf8::{
    decode_utf8_encode_utf8, encode_utf8, encode_utf8_decode_utf8, encode_utf8_valid_utf8,
};

use crate::bytes::{append_bytes, bytes_equal, le_bytes, lemma_le_bytes_len, push_le};
use crate::text::{all_digits, chars_of, decimal_value, decode_text, is_digit, utf8_decoded};
use crate::wifi_config::{invalid, law_credentials_have_their_limits, CredentialsError};

verus! {

pub const BLE_PROVISION_INFO_MAGIC: [u8; 5] = [0x4d, 0x35, 0x50, 0x49, 0x31];

pub const BLE_PROVISION_WIFI_MAGIC: [u8; 5] = [0x4d, 0x35, 0x50, 0x57, 0x31];

pub const BLE_PROVISION_SALT_LEN: usize = 16;

pub const BLE_PROVISION_NONCE_LEN: usize = 12;

pub const BLE_PROVISION_CODE_DIGITS: usize = 8;

pub const PROVISION_KEY_INFO: &'static str = "m5mic ble wifi v1";

/// The longest network name, in bytes.
pub const MAX_SSID_BYTES: usize = 32;

/// The longest password, in bytes.
pub const MAX_PASSWORD_BYTES: usize = 64;

#[derive(Debug, Clone, PartialEq, Eq)]
pub struct ProvisionedWifi {
    pub ssid: String,
    pub password: String,
}

#[derive(Debug, Clone, Copy, PartialEq, Eq, Structural)]
pub enum ProvisionError {
    SsidMissing,
    SsidTooLong,
    PasswordTooLong,
    BadSetupCode,
    BadInfoLength,
    BadInfoMagic,
    KeyDerivation,
    NonceGeneration,
    Encryption,
    PayloadTooShort,
    BadMagic,
    Decryption,
    PlaintextTooShort,
    BadSsidLength,
    BadPasswordLength,
    PlaintextLengthMismatch,
    SsidNotText,
    PasswordNotText,
}

impl ProvisionError {
    pub open spec fn text(self) -> &'static str {
        match self {
            ProvisionError::SsidMissing => "Wi-Fi name is required",
            ProvisionError::SsidTooLong => "Wi-Fi name is too long",
            ProvisionError::PasswordTooLong => "Wi-Fi password is too long",
            ProvisionError::BadSetupCode => "Bluetooth setup code must be 8 digits",
            ProvisionError::BadInfoLength => "bad Bluetooth provisioning info length",
            ProvisionError::BadInfoMagic => "bad Bluetooth provisioning info magic",
            ProvisionError::KeyDerivation => "derive provisioning key",
            ProvisionError::NonceGeneration => "generate Bluetooth provisioning nonce",
            ProvisionError::Encryption => "encrypt Wi-Fi credentials",
            ProvisionError::PayloadTooShort => "provisioning payload is too short",
            ProvisionError::BadMagic => "bad provisioning magic",
            ProvisionError::Decryption => "decrypt provisioning payload",
            ProvisionError::PlaintextTooShort => "Wi-Fi plaintext is too short",
            ProvisionError::BadSsidLength => "Wi-Fi SSID length is invalid",
            ProvisionError::BadPasswordLength => "Wi-Fi password length is invalid",
            ProvisionError::PlaintextLengthMismatch => "Wi-Fi plaintext length mismatch",
            ProvisionError::SsidNotText => "decode provisioned SSID",
            ProvisionError::PasswordNotText => "decode provisioned password",
        }
    }

    pub fn message(self) -> (message: &'static str)
        ensures
            message == self.text(),
    {
        match self {
            ProvisionError::SsidMissing => "Wi-Fi name is required",
            ProvisionError::SsidTooLong => "Wi-Fi name is too long",
            ProvisionError::PasswordTooLong => "Wi-Fi password is too long",
            ProvisionError::BadSetupCode => "Bluetooth setup code must be 8 digits",
            ProvisionError::BadInfoLength => "bad Bluetooth provisioning info length",
            ProvisionError::BadInfoMagic => "bad Bluetooth provisioning info magic",
            ProvisionError::KeyDerivation => "derive provisioning key",
            ProvisionError::NonceGeneration => "generate Bluetooth provisioning nonce",
            ProvisionError::Encryption => "encrypt Wi-Fi credentials",
            ProvisionError::PayloadTooShort => "provisioning payload is too short",
            ProvisionError::BadMagic => "bad provisioning magic",
            ProvisionError::Decryption => "decrypt provisioning payload",
            ProvisionError::PlaintextTooShort => "Wi-Fi plaintext is too short",
            ProvisionError::BadSsidLength => "Wi-Fi SSID length is invalid",
            ProvisionError::BadPasswordLength => "Wi-Fi password length is invalid",
            ProvisionError::PlaintextLengthMismatch => "Wi-Fi plaintext length mismatch",
            ProvisionError::SsidNotText => "decode provisioned SSID",
            ProvisionError::PasswordNotText => "decode provisioned password",
        }
    }
}

/// The 32 bytes that `Hkdf::<Sha256>::new(Some(salt), input)` expands to under `info`.
pub uninterp spec fn hkdf_sha256(salt: Seq<u8>, input: Seq<u8>, info: Seq<u8>) -> Seq<u8>;

/// What `ChaCha20Poly1305` encrypts `message` to.
pub uninterp spec fn chacha20poly1305_sealed(
    key: Seq<u8>,
    nonce: Seq<u8>,
    associated: Seq<u8>,
    message: Seq<u8>,
) -> Seq<u8>;

/// What `ChaCha20Poly1305` decrypts `sealed` to, if it authenticates.
pub uninterp spec fn chacha20poly1305_opened(
    key: Seq<u8>,
    nonce: Seq<u8>,
    associated: Seq<u8>,
    sealed: Seq<u8>,
) -> Option<Seq<u8>>;

/// `hkdf::Hkdf::<Sha256>::new` and `expand` into 32 bytes. The expansion fails
/// only for more than 255 times 32 bytes, so it succeeds here; its result depends
/// on the three arguments alone.
#[verifier::external_body]
fn derive_key(salt: &[u8], input: &[u8], info: &[u8]) -> (key: Option<Vec<u8>>)
    ensures
        key is Some,
        key->0@ == hkdf_sha256(salt@, input@, info@),
        key->0@.len() == 32,
{
    let mut key = [0u8; 32];
    Hkdf::<Sha256>::new(Some(salt), input).expand(info, &mut key).ok()?;
    Some(key.to_vec())
}

/// `ChaCha20Poly1305::new_from_slice` and `Aead::encrypt`. A key of 32 bytes is
/// accepted; a nonce that is not twelve bytes long would panic. A message is
/// encrypted unless it uses up the block counter, at 256 GiB. The result is sixteen
/// bytes longer than the message, depends on the four arguments alone, and decrypts
/// to the message under the same key, nonce and associated data.
#[verifier::external_body]
fn seal(key: &[u8], nonce: &[u8], associated: &[u8], message: &[u8]) -> (sealed: Option<Vec<u8>>)
    requires
        key@.len() == 32,
        nonce@.len() == 12,
        message@.len() <= 0x3f_ffff_ff00,
    ensures
        sealed is Some,
        sealed->0@ == chacha20poly1305_sealed(key@, nonce@, associated@, message@),
        sealed->0@.len() == message@.len() + 16,
        chacha20poly1305_opened(key@, nonce@, associated@, sealed->0@) == Some(message@),
{
    let cipher = ChaCha20Poly1305::new_from_slice(key).ok()?;
    cipher.encrypt(Nonce::from_slice(nonce), Payload { msg: message, aad: associated }).ok()
}

/// `ChaCha20Poly1305::new_from_slice` and `Aead::decrypt`: the plaintext where the
/// ciphertext authenticates, and an error where it does not, depending on the four
/// arguments alone. A ciphertext of nearly 256 GiB that authenticates would exhaust
/// the block counter and panic.
#[verifier::external_body]
fn open(key: &[u8], nonce: &[u8], associated: &[u8], sealed: &[u8]) -> (message: Option<Vec<u8>>)
    requires
        key@.len() == 32,
        nonce@.len() == 12,
        sealed@.len() <= 0x3f_ffff_ff00,
    ensures
        message is Some <==> chacha20poly1305_opened(key@, nonce@, associated@, sealed@) is Some,
        message matches Some(message) ==> chacha20poly1305_opened(
            key@,
            nonce@,
            associated@,
            sealed@,
        ) == Some(message@),
{
    let cipher = ChaCha20Poly1305::new_from_slice(key).ok()?;
    cipher.decrypt(Nonce::from_slice(nonce), Payload { msg: sealed, aad: associated }).ok()
}

/// `getrandom::fill`: as many bytes as were asked for, or an error. What the
/// bytes are, and whether the system can give them, is left open.
#[verifier::external_body]
fn random_bytes(n: usize) -> (bytes: Option<Vec<u8>>)
    ensures
        bytes matches Some(bytes) ==> bytes@.len() == n,
{
    let mut bytes = vec![0u8; n];
    getrandom::fill(&mut bytes).ok()?;
    Some(bytes)
}

/// Whether credentials can be handed over, and why not.
pub open spec fn credentials_error(ssid: Seq<char>, password: Seq<char>) -> Option<ProvisionError> {
    if ssid.len() == 0 {
        Some(ProvisionError::SsidMissing)
    } else if encode_utf8(ssid).len() > MAX_SSID_BYTES {
        Some(ProvisionError::SsidTooLong)
    } else if encode_utf8(password).len() > MAX_PASSWORD_BYTES {
        Some(ProvisionError::PasswordTooLong)
    } else {
        None
    }
}

pub fn validate_wifi_credentials(ssid: &str, password: &str) -> (result: Result<(), ProvisionError>)
    ensures
        match result {
            Ok(()) => credentials_error(ssid@, password@) is None,
            Err(error) => credentials_error(ssid@, password@) == Some(error),
        },
{
    if ssid.is_empty() {
        return Err(ProvisionError::SsidMissing);
    }
    if ssid.as_bytes().len() > MAX_SSID_BYTES {
        return Err(ProvisionError::SsidTooLong);
    }
    if password.as_bytes().len() > MAX_PASSWORD_BYTES {
        return Err(ProvisionError::PasswordTooLong);
    }
    Ok(())
}

/// `s` without the spaces and hyphens that a setup code may be grouped with.
pub open spec fn without_separators(s: Seq<char>) -> Seq<char>
    decreases s.len(),
{
    if s.len() == 0 {
        s
    } else if s.last() == ' ' || s.last() == '-' {
        without_separators(s.drop_last())
    } else {
        without_separators(s.drop_last()).push(s.last())
    }
}

/// The ASCII bytes of `s`.
pub open spec fn ascii_bytes(s: Seq<char>) -> Seq<u8> {
    Seq::new(s.len(), |i: int| s[i] as u8)
}

/// The eight digits of a setup code, if `input` is one.
pub open spec fn setup_code(input: Seq<char>) -> Option<Seq<u8>> {
    let digits = without_separators(input);
    if digits.len() == BLE_PROVISION_CODE_DIGITS && all_digits(digits) {
        Some(ascii_bytes(digits))
    } else {
        None
    }
}

proof fn lemma_without_separators_prefix(s: Seq<char>, n: int)
    requires
        0 <= n <= s.len(),
    ensures
        without_separators(s.take(n)).len() <= without_separators(s).len(),
        without_separators(s).take(without_separators(s.take(n)).len() as int)
            == without_separators(s.take(n)),
    decreases s.len(),
{
    if n == s.len() {
        assert(s.take(n) =~= s);
        assert(without_separators(s).take(without_separators(s).len() as int)
            =~= without_separators(s));
    } else {
        lemma_without_separators_prefix(s.drop_last(), n);
        assert(s.drop_last().take(n) =~= s.take(n));
        let part = without_separators(s.take(n));
        assert(without_separators(s).take(part.len() as int) =~= without_separators(
            s.drop_last(),
        ).take(part.len() as int));
    }
}

pub fn normalize_setup_code(input: &str) -> (result: Result<Vec<u8>, ProvisionError>)
    ensures
        match result {
            Ok(code) => setup_code(input@) == Some(code@),
            Err(error) => setup_code(input@) is None && error == ProvisionError::BadSetupCode,
        },
{
    let chars = chars_of(input);
    let mut code: Vec<u8> = Vec::new();
    let mut i: usize = 0;
    assert(input@.take(0) =~= Seq::<char>::empty());
    assert(code@ =~= ascii_bytes(without_separators(input@.take(0))));
    while i < chars.len()
        invariant
            i <= chars@.len(),
            chars@ == input@,
            code@ == ascii_bytes(without_separators(input@.take(i as int))),
            code@.len() <= BLE_PROVISION_CODE_DIGITS,
            all_digits(without_separators(input@.take(i as int))),
        decreases chars@.len() - i,
    {
        let c: char = chars[i];
        let ghost kept = without_separators(input@.take(i as int));
        let ghost all = without_separators(input@);
        proof {
            assert(input@.take(i + 1).drop_last() =~= input@.take(i as int));
            assert(input@.take(i + 1).last() == c);
            lemma_without_separators_prefix(input@, i + 1);
        }
        i += 1;
        if c == ' ' || c == '-' {
            continue ;
        }
        proof {
            assert(without_separators(input@.take(i as int)) == kept.push(c));
            assert(all[kept.len() as int] == all.take(kept.len() as int + 1)[kept.len() as int]);
            assert(all[kept.len() as int] == c);
        }
        if c < '0' || c > '9' || code.len() == BLE_PROVISION_CODE_DIGITS {
            assert(!is_digit(all[kept.len() as int]) || all.len() > BLE_PROVISION_CODE_DIGITS);
            return Err(ProvisionError::BadSetupCode);
        }
        code.push(c as u8);
        assert(code@ =~= ascii_bytes(kept.push(c)));
    }
    assert(input@.take(i as int) =~= input@);
    if code.len() != BLE_PROVISION_CODE_DIGITS {
        return Err(ProvisionError::BadSetupCode);
    }
    Ok(code)
}

/// The last `n` decimal digits of `value`, as ASCII.
pub open spec fn digits_of(value: nat, n: nat) -> Seq<u8>
    decreases n,
{
    if n == 0 {
        Seq::empty()
    } else {
        digits_of(value / 10, (n - 1) as nat).push((0x30 + value % 10) as u8)
    }
}

/// The digits of the code that the microphone shows.
pub open spec fn code_digits(code: u32) -> Seq<u8> {
    digits_of((code % 100_000_000) as nat, BLE_PROVISION_CODE_DIGITS as nat)
}

fn push_digits(out: &mut Vec<u8>, value: u32, n: usize)
    ensures
        final(out)@ == old(out)@ + digits_of(value as nat, n as nat),
    decreases n,
{
    let ghost before = out@;
    if n > 0 {
        push_digits(out, value / 10, n - 1);
        out.push(0x30 + (value % 10) as u8);
    }
    assert(out@ =~= before + digits_of(value as nat, n as nat));
}

pub fn provision_code_bytes(code: u32) -> (bytes: Vec<u8>)
    ensures
        bytes@ == code_digits(code),
{
    let mut bytes: Vec<u8> = Vec::new();
    push_digits(&mut bytes, code % 100_000_000, BLE_PROVISION_CODE_DIGITS);
    assert(bytes@ =~= code_digits(code));
    bytes
}

/// The characters that the bytes of ASCII text stand for.
pub open spec fn ascii_chars(bytes: Seq<u8>) -> Seq<char> {
    Seq::new(bytes.len(), |i: int| bytes[i] as char)
}

pub proof fn lemma_digits_of(value: nat, n: nat)
    ensures
        digits_of(value, n).len() == n,
        forall|i: int| 0 <= i < n ==> 0x30 <= #[trigger] digits_of(value, n)[i] <= 0x39,
    decreases n,
{
    if n > 0 {
        lemma_digits_of(value / 10, (n - 1) as nat);
    }
}

proof fn lemma_no_separators(s: Seq<char>)
    requires
        all_digits(s),
    ensures
        without_separators(s) == s,
    decreases s.len(),
{
    if s.len() > 0 {
        let shorter = s.drop_last();
        assert forall|i: int| 0 <= i < shorter.len() implies is_digit(#[trigger] shorter[i]) by {
            assert(is_digit(s[i]));
        }
        lemma_no_separators(shorter);
        assert(is_digit(s[s.len() - 1]));
        assert(shorter.push(s.last()) =~= s);
    }
}

/// Typing in the digits that the microphone shows gives the code that the
/// microphone itself uses.
pub proof fn law_setup_code_matches_the_shown_code(code: u32)
    ensures
        setup_code(ascii_chars(code_digits(code))) == Some(code_digits(code)),
{
    let digits = code_digits(code);
    let shown = ascii_chars(digits);
    lemma_digits_of((code % 100_000_000) as nat, BLE_PROVISION_CODE_DIGITS as nat);
    assert forall|i: int| 0 <= i < shown.len() implies is_digit(#[trigger] shown[i]) by {
        assert(0x30 <= digits[i] <= 0x39);
    }
    lemma_no_separators(shown);
    assert(ascii_bytes(shown) =~= digits);
}

/// Spaces and hyphens between the digits of a setup code make no difference.
pub proof fn law_setup_code_ignores_separators(a: Seq<char>, b: Seq<char>, separator: char)
    requires
        separator == ' ' || separator == '-',
    ensures
        setup_code(a.push(separator) + b) == setup_code(a + b),
{
    lemma_separator_dropped(a, b, separator);
}

proof fn lemma_separator_dropped(a: Seq<char>, b: Seq<char>, separator: char)
    requires
        separator == ' ' || separator == '-',
    ensures
        without_separators(a.push(separator) + b) == without_separators(a + b),
    decreases b.len(),
{
    if b.len() == 0 {
        assert(a.push(separator) + b =~= a.push(separator));
        assert(a.push(separator).drop_last() =~= a);
        assert(a + b =~= a);
    } else {
        lemma_separator_dropped(a, b.drop_last(), separator);
        assert((a.push(separator) + b).drop_last() =~= a.push(separator) + b.drop_last());
        assert((a + b).drop_last() =~= a + b.drop_last());
    }
}

/// The code that a random number stands for.
pub fn provision_code(random: u32) -> (code: u32)
    ensures
        code == random % 100_000_000,
{
    random % 100_000_000
}

/// The salt made of four random numbers.
pub fn provision_salt(a: u32, b: u32, c: u32, d: u32) -> (salt: Vec<u8>)
    ensures
        salt@ == le_bytes(a as nat, 4) + le_bytes(b as nat, 4) + le_bytes(c as nat, 4) + le_bytes(
            d as nat,
            4,
        ),
        salt@.len() == BLE_PROVISION_SALT_LEN,
{
    let mut salt: Vec<u8> = Vec::new();
    proof {
        lemma_le_bytes_len(a as nat, 4);
        lemma_le_bytes_len(b as nat, 4);
        lemma_le_bytes_len(c as nat, 4);
        lemma_le_bytes_len(d as nat, 4);
    }
    push_le(&mut salt, a as u64, 4);
    assert(salt@ =~= le_bytes(a as nat, 4));
    push_le(&mut salt, b as u64, 4);
    push_le(&mut salt, c as u64, 4);
    push_le(&mut salt, d as u64, 4);
    salt
}

/// What the provisioning characteristic reads as.
pub fn provision_info_payload(salt: &[u8]) -> (payload: Vec<u8>)
    ensures
        payload@ == BLE_PROVISION_INFO_MAGIC@ + salt@,
{
    let mut payload: Vec<u8> = Vec::new();
    append_bytes(&mut payload, &BLE_PROVISION_INFO_MAGIC);
    append_bytes(&mut payload, salt);
    assert(payload@ =~= BLE_PROVISION_INFO_MAGIC@ + salt@);
    payload
}

/// The salt in what the provisioning characteristic reads as.
pub open spec fn salt_in(info: Seq<u8>) -> Result<Seq<u8>, ProvisionError> {
    if info.len() != BLE_PROVISION_INFO_MAGIC@.len() + BLE_PROVISION_SALT_LEN {
        Err(ProvisionError::BadInfoLength)
    } else if info.take(5) != BLE_PROVISION_INFO_MAGIC@ {
        Err(ProvisionError::BadInfoMagic)
    } else {
        Ok(info.skip(5))
    }
}

pub fn parse_provisioning_info(info: &[u8]) -> (result: Result<&[u8], ProvisionError>)
    ensures
        match result {
            Ok(salt) => salt_in(info@) == Ok::<Seq<u8>, ProvisionError>(salt@),
            Err(error) => salt_in(info@) == Err::<Seq<u8>, ProvisionError>(error),
        },
{
    if info.len() != 5 + BLE_PROVISION_SALT_LEN {
        return Err(ProvisionError::BadInfoLength);
    }
    assert(info@.subrange(0, 5) =~= info@.take(5));
    if !bytes_equal(&info[0..5], &BLE_PROVISION_INFO_MAGIC) {
        return Err(ProvisionError::BadInfoMagic);
    }
    let salt = &info[5..info.len()];
    assert(salt@ =~= info@.skip(5));
    Ok(salt)
}

/// The receiver finds the microphone's salt in what the characteristic reads as.
pub proof fn law_provisioning_info_round_trip(salt: Seq<u8>)
    requires
        salt.len() == BLE_PROVISION_SALT_LEN,
    ensures
        salt_in(BLE_PROVISION_INFO_MAGIC@ + salt) == Ok::<Seq<u8>, ProvisionError>(salt),
{
    let info = BLE_PROVISION_INFO_MAGIC@ + salt;
    assert(info.take(5) =~= BLE_PROVISION_INFO_MAGIC@);
    assert(info.skip(5) =~= salt);
}

/// The bytes that are sealed: the two lengths, the name, the password.
pub open spec fn wifi_plaintext(ssid: Seq<char>, password: Seq<char>) -> Seq<u8> {
    seq![encode_utf8(ssid).len() as u8, encode_utf8(password).len() as u8] + encode_utf8(ssid)
        + encode_utf8(password)
}

/// The name and the password in unsealed bytes.
pub open spec fn wifi_in_plaintext(plaintext: Seq<u8>) -> Result<
    (Seq<char>, Seq<char>),
    ProvisionError,
> {
    let ssid_len = plaintext[0] as int;
    let password_len = plaintext[1] as int;
    if plaintext.len() < 2 {
        Err(ProvisionError::PlaintextTooShort)
    } else if ssid_len == 0 || ssid_len > MAX_SSID_BYTES {
        Err(ProvisionError::BadSsidLength)
    } else if password_len > MAX_PASSWORD_BYTES {
        Err(ProvisionError::BadPasswordLength)
    } else if plaintext.len() != 2 + ssid_len + password_len {
        Err(ProvisionError::PlaintextLengthMismatch)
    } else {
        match utf8_decoded(plaintext.subrange(2, 2 + ssid_len)) {
            None => Err(ProvisionError::SsidNotText),
            Some(ssid) => match utf8_decoded(plaintext.skip(2 + ssid_len)) {
                None => Err(ProvisionError::PasswordNotText),
                Some(password) => Ok((ssid, password)),
            },
        }
    }
}

/// The credentials that a function returned, as text.
pub open spec fn wifi_result(result: Result<ProvisionedWifi, ProvisionError>) -> Result<
    (Seq<char>, Seq<char>),
    ProvisionError,
> {
    match result {
        Ok(wifi) => Ok((wifi.ssid@, wifi.password@)),
        Err(error) => Err(error),
    }
}

pub fn parse_wifi_plaintext(plaintext: &[u8]) -> (result: Result<ProvisionedWifi, ProvisionError>)
    ensures
        wifi_result(result) == wifi_in_plaintext(plaintext@),
{
    if plaintext.len() < 2 {
        return Err(ProvisionError::PlaintextTooShort);
    }
    let ssid_len: usize = plaintext[0] as usize;
    let password_len: usize = plaintext[1] as usize;
    if ssid_len == 0 || ssid_len > MAX_SSID_BYTES {
        return Err(ProvisionError::BadSsidLength);
    }
    if password_len > MAX_PASSWORD_BYTES {
        return Err(ProvisionError::BadPasswordLength);
    }
    if plaintext.len() != 2 + ssid_len + password_len {
        return Err(ProvisionError::PlaintextLengthMismatch);
    }
    let ssid_end: usize = 2 + ssid_len;
    let ssid = match decode_text(&plaintext[2..ssid_end]) {
        Some(ssid) => ssid.to_owned(),
        None => return Err(ProvisionError::SsidNotText),
    };
    assert(plaintext@.subrange(ssid_end as int, plaintext@.len() as int) =~= plaintext@.skip(
        ssid_end as int,
    ));
    let password = match decode_text(&plaintext[ssid_end..plaintext.len()]) {
        Some(password) => password.to_owned(),
        None => return Err(ProvisionError::PasswordNotText),
    };
    Ok(ProvisionedWifi { ssid, password })
}

/// Credentials that can be handed over come out of their plaintext unchanged.
pub proof fn law_wifi_plaintext_round_trip(ssid: Seq<char>, password: Seq<char>)
    requires
        credentials_error(ssid, password) is None,
    ensures
        wifi_in_plaintext(wifi_plaintext(ssid, password)) == Ok::<
            (Seq<char>, Seq<char>),
            ProvisionError,
        >((ssid, password)),
{
    let name = encode_utf8(ssid);
    let pass = encode_utf8(password);
    let plaintext = wifi_plaintext(ssid, password);
    lemma_encoding_not_empty(ssid);
    encode_utf8_valid_utf8(ssid);
    encode_utf8_valid_utf8(password);
    encode_utf8_decode_utf8(ssid);
    encode_utf8_decode_utf8(password);
    assert(plaintext.subrange(2, 2 + name.len() as int) =~= name);
    assert(plaintext.skip(2 + name.len() as int) =~= pass);
}

proof fn lemma_encoding_not_empty(s: Seq<char>)
    requires
        s.len() > 0,
    ensures
        encode_utf8(s).len() > 0,
{
    encode_utf8_decode_utf8(s);
    if encode_utf8(s).len() == 0 {
        assert(encode_utf8(s) =~= Seq::<u8>::empty());
        assert(vstd::utf8::decode_utf8(encode_utf8(s)).len() == 0);
    }
}

/// The key that a code and a salt give.
pub open spec fn provisioning_key(code: Seq<u8>, salt: Seq<u8>) -> Seq<u8> {
    hkdf_sha256(salt, code, PROVISION_KEY_INFO.spec_bytes())
}

/// The message that carries credentials: the magic, the nonce, the sealed
/// plaintext.
pub open spec fn wifi_payload(
    ssid: Seq<char>,
    password: Seq<char>,
    code: Seq<u8>,
    salt: Seq<u8>,
    nonce: Seq<u8>,
) -> Seq<u8> {
    BLE_PROVISION_WIFI_MAGIC@ + nonce + chacha20poly1305_sealed(
        provisioning_key(code, salt),
        nonce,
        BLE_PROVISION_WIFI_MAGIC@,
        wifi_plaintext(ssid, password),
    )
}

/// The credentials in such a message.
pub open spec fn wifi_in_payload(payload: Seq<u8>, code: Seq<u8>, salt: Seq<u8>) -> Result<
    (Seq<char>, Seq<char>),
    ProvisionError,
> {
    if payload.len() <= 17 {
        Err(ProvisionError::PayloadTooShort)
    } else if payload.take(5) != BLE_PROVISION_WIFI_MAGIC@ {
        Err(ProvisionError::BadMagic)
    } else {
        match chacha20poly1305_opened(
            provisioning_key(code, salt),
            payload.subrange(5, 17),
            BLE_PROVISION_WIFI_MAGIC@,
            payload.skip(17),
        ) {
            None => Err(ProvisionError::Decryption),
            Some(plaintext) => wifi_in_plaintext(plaintext),
        }
    }
}

/// The message that carries credentials, sealed with `nonce`. Whoever knows the
/// code and the salt reads the same credentials out of it.
pub fn seal_wifi_payload(ssid: &str, password: &str, code: &[u8], salt: &[u8], nonce: &[u8]) -> (result:
    Result<Vec<u8>, ProvisionError>)
    requires
        nonce@.len() == BLE_PROVISION_NONCE_LEN,
    ensures
        match credentials_error(ssid@, password@) {
            Some(error) => result == Err::<Vec<u8>, ProvisionError>(error),
            None => {
                &&& result is Ok
                &&& result->Ok_0@ == wifi_payload(ssid@, password@, code@, salt@, nonce@)
                &&& wifi_in_payload(result->Ok_0@, code@, salt@) == Ok::<
                    (Seq<char>, Seq<char>),
                    ProvisionError,
                >((ssid@, password@))
            },
        },
{
    match validate_wifi_credentials(ssid, password) {
        Ok(()) => {},
        Err(error) => return Err(error),
    }
    let mut plaintext: Vec<u8> = Vec::new();
    plaintext.push(ssid.as_bytes().len() as u8);
    plaintext.push(password.as_bytes().len() as u8);
    append_bytes(&mut plaintext, ssid.as_bytes());
    append_bytes(&mut plaintext, password.as_bytes());
    assert(plaintext@ =~= wifi_plaintext(ssid@, password@));
    let key = match derive_key(salt, code, PROVISION_KEY_INFO.as_bytes()) {
        Some(key) => key,
        None => return Err(ProvisionError::KeyDerivation),
    };
    let sealed = match seal(
        key.as_slice(),
        nonce,
        &BLE_PROVISION_WIFI_MAGIC,
        plaintext.as_slice(),
    ) {
        Some(sealed) => sealed,
        None => return Err(ProvisionError::Encryption),
    };
    let mut payload: Vec<u8> = Vec::new();
    append_bytes(&mut payload, &BLE_PROVISION_WIFI_MAGIC);
    append_bytes(&mut payload, nonce);
    append_bytes(&mut payload, sealed.as_slice());
    proof {
        law_wifi_plaintext_round_trip(ssid@, password@);
        assert(payload@ =~= wifi_payload(ssid@, password@, code@, salt@, nonce@));
        assert(payload@.take(5) =~= BLE_PROVISION_WIFI_MAGIC@);
        assert(payload@.subrange(5, 17) =~= nonce@);
        assert(payload@.skip(17) =~= sealed@);
    }
    Ok(payload)
}

/// The message that carries credentials, sealed with a nonce of the system's
/// random bytes. It fails where the system gives none.
pub fn encrypted_wifi_payload(ssid: &str, password: &str, code: &[u8], salt: &[u8]) -> (result:
    Result<Vec<u8>, ProvisionError>)
    ensures
        match result {
            Ok(payload) => {
                &&& credentials_error(ssid@, password@) is None
                &&& exists|nonce: Seq<u8>|
                    nonce.len() == BLE_PROVISION_NONCE_LEN && payload@ == #[trigger] wifi_payload(
                        ssid@,
                        password@,
                        code@,
                        salt@,
                        nonce,
                    )
                &&& wifi_in_payload(payload@, code@, salt@) == Ok::<
                    (Seq<char>, Seq<char>),
                    ProvisionError,
                >((ssid@, password@))
            },
            Err(error) => credentials_error(ssid@, password@) == Some(error) || (
            credentials_error(ssid@, password@) is None && error
                == ProvisionError::NonceGeneration),
        },
{
    match validate_wifi_credentials(ssid, password) {
        Ok(()) => {},
        Err(error) => return Err(error),
    }
    let nonce = match random_bytes(BLE_PROVISION_NONCE_LEN) {
        Some(nonce) => nonce,
        None => return Err(ProvisionError::NonceGeneration),
    };
    seal_wifi_payload(ssid, password, code, salt, nonce.as_slice())
}

/// The credentials in a message, for the microphone that shows `code`. The bound is
/// the one on what the cipher's block counter can reach, at 256 GiB.
pub fn decrypt_wifi_payload(payload: &[u8], code: u32, salt: &[u8]) -> (result: Result<
    ProvisionedWifi,
    ProvisionError,
>)
    requires
        payload@.len() <= 0x3f_ffff_ff00,
    ensures
        wifi_result(result) == wifi_in_payload(payload@, code_digits(code), salt@),
{
    if payload.len() <= 5 + BLE_PROVISION_NONCE_LEN {
        return Err(ProvisionError::PayloadTooShort);
    }
    assert(payload@.subrange(0, 5) =~= payload@.take(5));
    if !bytes_equal(&payload[0..5], &BLE_PROVISION_WIFI_MAGIC) {
        return Err(ProvisionError::BadMagic);
    }
    let digits = provision_code_bytes(code);
    let key = match derive_key(salt, digits.as_slice(), PROVISION_KEY_INFO.as_bytes()) {
        Some(key) => key,
        None => return Err(ProvisionError::KeyDerivation),
    };
    assert(payload@.subrange(17, payload@.len() as int) =~= payload@.skip(17));
    match open(
        key.as_slice(),
        &payload[5..17],
        &BLE_PROVISION_WIFI_MAGIC,
        &payload[17..payload.len()],
    ) {
        Some(plaintext) => parse_wifi_plaintext(plaintext.as_slice()),
        None => Err(ProvisionError::Decryption),
    }
}

/// The message to write to the provisioning characteristic: `info` is what it
/// reads as, and `setup_code_text` what was typed in.
pub fn provisioning_message(ssid: &str, password: &str, setup_code_text: &str, info: &[u8]) -> (result:
    Result<Vec<u8>, ProvisionError>)
    ensures
        match result {
            Ok(payload) => {
                &&& credentials_error(ssid@, password@) is None
                &&& setup_code(setup_code_text@) is Some
                &&& salt_in(info@) is Ok
                &&& exists|nonce: Seq<u8>|
                    nonce.len() == BLE_PROVISION_NONCE_LEN && payload@ == #[trigger] wifi_payload(
                        ssid@,
                        password@,
                        setup_code(setup_code_text@)->0,
                        salt_in(info@)->Ok_0,
                        nonce,
                    )
                &&& wifi_in_payload(
                    payload@,
                    setup_code(setup_code_text@)->0,
                    salt_in(info@)->Ok_0,
                ) == Ok::<(Seq<char>, Seq<char>), ProvisionError>((ssid@, password@))
            },
            Err(error) => if credentials_error(ssid@, password@) is Some {
                credentials_error(ssid@, password@) == Some(error)
            } else if setup_code(setup_code_text@) is None {
                error == ProvisionError::BadSetupCode
            } else if salt_in(info@) is Err {
                salt_in(info@) == Err::<Seq<u8>, ProvisionError>(error)
            } else {
                error == ProvisionError::NonceGeneration
            },
        },
{
    match validate_wifi_credentials(ssid, password) {
        Ok(()) => {},
        Err(error) => return Err(error),
    }
    let code = match normalize_setup_code(setup_code_text) {
        Ok(code) => code,
        Err(error) => return Err(error),
    };
    let salt = match parse_provisioning_info(info) {
        Ok(salt) => salt,
        Err(error) => return Err(error),
    };
    encrypted_wifi_payload(ssid, password, code.as_slice(), salt)
}

pub open spec fn pow10(n: nat) -> nat
    decreases n,
{
    if n == 0 {
        1
    } else {
        10 * pow10((n - 1) as nat)
    }
}

proof fn lemma_digits_spell(value: nat, n: nat)
    requires
        value < pow10(n),
    ensures
        decimal_value(ascii_chars(digits_of(value, n))) == value,
    decreases n,
{
    if n > 0 {
        let shorter = digits_of(value / 10, (n - 1) as nat);
        let digits = digits_of(value, n);
        lemma_digits_spell(value / 10, (n - 1) as nat);
        assert(ascii_chars(digits).drop_last() =~= ascii_chars(shorter));
        assert(ascii_chars(digits).last() == ((0x30 + value % 10) as u8) as char);
    }
}

/// The microphone shows eight digits that spell its code.
pub proof fn law_the_digits_spell_the_code(code: u32)
    requires
        code < 100_000_000,
    ensures
        code_digits(code).len() == 8,
        all_digits(ascii_chars(code_digits(code))),
        decimal_value(ascii_chars(code_digits(code))) == code,
{
    let digits = code_digits(code);
    lemma_digits_of(code as nat, 8);
    assert(pow10(8) == 100_000_000) by {
        reveal_with_fuel(pow10, 9);
    }
    lemma_digits_spell(code as nat, 8);
    assert forall|i: int| 0 <= i < digits.len() implies is_digit(
        #[trigger] ascii_chars(digits)[i],
    ) by {
        assert(0x30 <= digits[i] <= 0x39);
    }
}

/// Digits are a setup code if and only if there are eight of them, and are used as they
/// are.
pub proof fn law_a_setup_code_has_eight_digits(s: Seq<char>)
    requires
        all_digits(s),
    ensures
        setup_code(s) is Some <==> s.len() == 8,
        setup_code(s) matches Some(code) ==> ascii_chars(code) == s,
{
    lemma_no_separators(s);
    if setup_code(s) is Some {
        assert forall|i: int| 0 <= i < s.len() implies ascii_chars(setup_code(s)->0)[i]
            == s[i] by {
            assert(is_digit(s[i]));
        }
        assert(ascii_chars(setup_code(s)->0) =~= s);
    }
}

/// Nothing with a character in it that is neither a digit nor a separator is a setup
/// code.
pub proof fn law_a_setup_code_has_no_other_characters(input: Seq<char>, i: int)
    requires
        0 <= i < input.len(),
        input[i] < '0' || input[i] > '9',
        input[i] != ' ' && input[i] != '-',
    ensures
        setup_code(input) is None,
{
    let at = lemma_character_kept(input, i);
    assert(!is_digit(without_separators(input)[at]));
}

proof fn lemma_character_kept(s: Seq<char>, i: int) -> (at: int)
    requires
        0 <= i < s.len(),
        s[i] != ' ' && s[i] != '-',
    ensures
        0 <= at < without_separators(s).len(),
        without_separators(s)[at] == s[i],
    decreases s.len(),
{
    let shorter = s.drop_last();
    if i == s.len() - 1 {
        without_separators(shorter).len() as int
    } else {
        assert(shorter[i] == s[i]);
        lemma_character_kept(shorter, i)
    }
}

/// A salt is found only where the magic and sixteen bytes are all there is, and then it
/// is those bytes; a wrong length is told before a wrong magic.
pub proof fn law_only_a_salt_is_taken_for_one(info: Seq<u8>)
    ensures
        salt_in(info) matches Ok(salt) ==> info == BLE_PROVISION_INFO_MAGIC@ + salt && salt.len()
            == 16,
        salt_in(info) == Err::<Seq<u8>, ProvisionError>(ProvisionError::BadInfoLength)
            <==> info.len() != 21,
        salt_in(info) == Err::<Seq<u8>, ProvisionError>(ProvisionError::BadInfoMagic)
            <==> info.len() == 21 && info.take(5) != BLE_PROVISION_INFO_MAGIC@,
{
    assert(BLE_PROVISION_INFO_MAGIC@.len() == 5);
    if salt_in(info) is Ok {
        assert(info =~= BLE_PROVISION_INFO_MAGIC@ + info.skip(5));
    }
}

/// Credentials are read out of a plaintext only where it is the one that they are
/// written as, and where they can be used.
pub proof fn law_only_written_credentials_are_read(plaintext: Seq<u8>)
    ensures
        wifi_in_plaintext(plaintext) matches Ok((ssid, password)) ==> wifi_plaintext(ssid, password)
            == plaintext && credentials_error(ssid, password) is None,
{
    if let Ok((ssid, password)) = wifi_in_plaintext(plaintext) {
        let n = plaintext[0] as int;
        let name = plaintext.subrange(2, 2 + n);
        let pass = plaintext.skip(2 + n);
        decode_utf8_encode_utf8(name);
        decode_utf8_encode_utf8(pass);
        assert(encode_utf8(ssid) == name);
        assert(encode_utf8(password) == pass);
        if ssid.len() == 0 {
            assert(ssid =~= Seq::<char>::empty());
            assert(encode_utf8(ssid).len() == 0);
        }
        assert(wifi_plaintext(ssid, password) =~= plaintext);
    }
}

/// What is wrong with a plaintext is told in the order in which it is read: its length,
/// the length of the name, that of the password, and whether they add up.
pub proof fn law_a_bad_plaintext_is_refused(name_len: u8, password_len: u8, rest: Seq<u8>)
    ensures
        ({
            let read = wifi_in_plaintext(seq![name_len, password_len] + rest);
            &&& read is Err && read->Err_0 == ProvisionError::BadSsidLength <==> name_len == 0
                || name_len > 32
            &&& read is Err && read->Err_0 == ProvisionError::BadPasswordLength <==> 1 <= name_len
                <= 32 && password_len > 64
            &&& read is Err && read->Err_0 == ProvisionError::PlaintextLengthMismatch <==> 1
                <= name_len <= 32 && password_len <= 64 && rest.len() != name_len + password_len
            &&& !(read is Err && read->Err_0 == ProvisionError::PlaintextTooShort)
        }),
        forall|short: Seq<u8>|
            short.len() < 2 ==> (#[trigger] wifi_in_plaintext(short) matches Err(error) && error
                == ProvisionError::PlaintextTooShort),
{
    let plaintext = seq![name_len, password_len] + rest;
    assert(plaintext[0] == name_len && plaintext[1] == password_len);
}

/// A message is opened with the key that the code and the salt give, its own nonce and
/// its own sealed bytes, if it has the magic and is long enough, and not otherwise.
pub proof fn law_a_message_is_read_by_its_parts(
    magic: Seq<u8>,
    nonce: Seq<u8>,
    sealed: Seq<u8>,
    code: Seq<u8>,
    salt: Seq<u8>,
)
    requires
        magic.len() == 5,
        nonce.len() == 12,
        sealed.len() > 0,
    ensures
        ({
            let read = wifi_in_payload(magic + nonce + sealed, code, salt);
            let opened = chacha20poly1305_opened(
                hkdf_sha256(salt, code, "m5mic ble wifi v1".spec_bytes()),
                nonce,
                magic,
                sealed,
            );
            &&& magic != BLE_PROVISION_WIFI_MAGIC@ ==> read is Err && read->Err_0
                == ProvisionError::BadMagic
            &&& magic == BLE_PROVISION_WIFI_MAGIC@ && opened is None ==> read is Err && read->Err_0
                == ProvisionError::Decryption
            &&& magic == BLE_PROVISION_WIFI_MAGIC@ && opened is Some ==> read == wifi_in_plaintext(
                opened->0,
            )
        }),
        wifi_in_payload(magic + nonce, code, salt) is Err,
        wifi_in_payload(magic + nonce, code, salt)->Err_0 == ProvisionError::PayloadTooShort,
{
    let payload = magic + nonce + sealed;
    assert(payload.take(5) =~= magic);
    assert(payload.subrange(5, 17) =~= nonce);
    assert(payload.skip(17) =~= sealed);
}

/// The microphone can store and use every network that can be handed over to it, and no
/// network that it can use is refused on the way: one to thirty-two bytes of name and up
/// to sixty-four of password.
pub proof fn law_both_ends_accept_the_same_networks(ssid: Seq<char>, password: Seq<char>)
    ensures
        credentials_error(ssid, password) is None <==> invalid(ssid, password) is None,
        credentials_error(ssid, password) is None <==> 1 <= encode_utf8(ssid).len() <= 32
            && encode_utf8(password).len() <= 64,
        credentials_error(ssid, password) == Some(ProvisionError::SsidMissing) <==> invalid(
            ssid,
            password,
        ) == Some(CredentialsError::SsidMissing),
        credentials_error(ssid, password) == Some(ProvisionError::SsidTooLong) <==> invalid(
            ssid,
            password,
        ) == Some(CredentialsError::SsidTooLong),
{
    law_credentials_have_their_limits(ssid, password);
}

} // verus!
