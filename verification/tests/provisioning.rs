use m5mic::provision::{
    decrypt_wifi_payload, encrypted_wifi_payload, normalize_setup_code, parse_provisioning_info,
    parse_wifi_plaintext, provision_code, provision_code_bytes, provision_info_payload,
    provision_salt, provisioning_message, seal_wifi_payload, validate_wifi_credentials,
    ProvisionError, BLE_PROVISION_INFO_MAGIC, BLE_PROVISION_WIFI_MAGIC,
};

const SALT: [u8; 16] = [0, 1, 2, 3, 4, 5, 6, 7, 8, 9, 10, 11, 12, 13, 14, 15];

const NONCE: [u8; 12] = [100, 101, 102, 103, 104, 105, 106, 107, 108, 109, 110, 111];

const SEALED: [u8; 42] = [
    0x4d, 0x35, 0x50, 0x57, 0x31, 0x64, 0x65, 0x66, 0x67, 0x68, 0x69, 0x6a, 0x6b, 0x6c, 0x6d, 0x6e,
    0x6f, 0x0a, 0x08, 0xda, 0x5d, 0xd2, 0xf9, 0xfc, 0x51, 0x87, 0x94, 0xfb, 0xc1, 0x97, 0x26, 0x19,
    0x00, 0x55, 0xbc, 0x99, 0x19, 0xa1, 0x10, 0xb9, 0xad, 0x79,
];

#[test]
fn sealing_gives_a_known_message() {
    let sealed = seal_wifi_payload("Home", "abc", b"01234567", &SALT, &NONCE).unwrap();
    assert_eq!(sealed, SEALED);
}

#[test]
fn a_sealed_message_is_opened_with_its_code() {
    let wifi = decrypt_wifi_payload(&SEALED, 1_234_567, &SALT).unwrap();
    assert_eq!(wifi.ssid, "Home");
    assert_eq!(wifi.password, "abc");
    let wifi = decrypt_wifi_payload(&SEALED, 101_234_567, &SALT).unwrap();
    assert_eq!(wifi.ssid, "Home");
}

#[test]
fn a_message_that_was_changed_is_refused() {
    let failed = Err(ProvisionError::Decryption);
    let opened = |payload: &[u8], code: u32, salt: &[u8]| {
        decrypt_wifi_payload(payload, code, salt).map(|wifi| wifi.ssid)
    };
    assert_eq!(opened(&SEALED, 1_234_568, &SALT), failed);
    assert_eq!(opened(&SEALED, 1_234_567, &[7; 16]), failed);
    assert_eq!(opened(&SEALED[..41], 1_234_567, &SALT), failed);
    for at in 5..42 {
        let mut changed = SEALED;
        changed[at] ^= 1;
        assert_eq!(opened(&changed, 1_234_567, &SALT), failed);
    }
    let mut changed = SEALED;
    changed[0] = 0;
    assert_eq!(
        opened(&changed, 1_234_567, &SALT),
        Err(ProvisionError::BadMagic)
    );
    assert_eq!(
        opened(&SEALED[..17], 1_234_567, &SALT),
        Err(ProvisionError::PayloadTooShort)
    );
}

#[test]
fn a_fresh_message_is_opened_again() {
    let first = encrypted_wifi_payload("Caf\u{e9}", "", b"00000042", &SALT).unwrap();
    let second = encrypted_wifi_payload("Caf\u{e9}", "", b"00000042", &SALT).unwrap();
    assert_eq!(&first[..5], &BLE_PROVISION_WIFI_MAGIC);
    assert_ne!(first, second);
    for sealed in [first, second] {
        let wifi = decrypt_wifi_payload(&sealed, 42, &SALT).unwrap();
        assert_eq!(wifi.ssid, "Caf\u{e9}");
        assert_eq!(wifi.password, "");
    }
}

#[test]
fn a_message_follows_what_the_device_says_of_itself() {
    let info = provision_info_payload(&SALT);
    let sealed = provisioning_message("Home", "secret", "1234-5678", &info).unwrap();
    assert_eq!(
        sealed,
        seal_wifi_payload("Home", "secret", b"12345678", &SALT, &sealed[5..17]).unwrap()
    );
    let wifi = decrypt_wifi_payload(&sealed, 12_345_678, &SALT).unwrap();
    assert_eq!(wifi.password, "secret");
    assert_eq!(
        provisioning_message("", "secret", "1234-5678", &info),
        Err(ProvisionError::SsidMissing)
    );
    assert_eq!(
        provisioning_message("Home", "secret", "1234-567", &info),
        Err(ProvisionError::BadSetupCode)
    );
    assert_eq!(
        provisioning_message("Home", "secret", "1234-5678", &info[1..]),
        Err(ProvisionError::BadInfoLength)
    );
}

#[test]
fn credentials_are_checked_before_they_are_sent() {
    assert_eq!(validate_wifi_credentials("a", ""), Ok(()));
    assert_eq!(
        validate_wifi_credentials(&"s".repeat(32), &"p".repeat(64)),
        Ok(())
    );
    assert_eq!(
        validate_wifi_credentials("", "p"),
        Err(ProvisionError::SsidMissing)
    );
    assert_eq!(
        validate_wifi_credentials(&"\u{e9}".repeat(17), "p"),
        Err(ProvisionError::SsidTooLong)
    );
    assert_eq!(
        validate_wifi_credentials("s", &"p".repeat(65)),
        Err(ProvisionError::PasswordTooLong)
    );
}

#[test]
fn setup_codes_have_eight_digits() {
    assert_eq!(normalize_setup_code("1234 5678").unwrap(), b"12345678");
    assert_eq!(normalize_setup_code("--1-2-3-4 5678-").unwrap(), b"12345678");
    for bad in ["", "1234567", "123456789", "1234567a", "1234\t5678", "\u{661}2345678"] {
        assert_eq!(normalize_setup_code(bad), Err(ProvisionError::BadSetupCode));
    }
    assert_eq!(provision_code_bytes(42), b"00000042");
    assert_eq!(provision_code_bytes(99_999_999), b"99999999");
    assert_eq!(provision_code_bytes(100_000_001), b"00000001");
    assert_eq!(provision_code(4_294_967_295), 94_967_295);
}

#[test]
fn the_device_says_what_it_salts_with() {
    let salt = provision_salt(0x0302_0100, 0x0706_0504, 0x0b0a_0908, 0x0f0e_0d0c);
    assert_eq!(salt, SALT);
    let info = provision_info_payload(&salt);
    assert_eq!(&info[..5], &BLE_PROVISION_INFO_MAGIC);
    assert_eq!(&BLE_PROVISION_INFO_MAGIC, b"M5PI1");
    assert_eq!(parse_provisioning_info(&info), Ok(&SALT[..]));
    assert_eq!(
        parse_provisioning_info(&info[..20]),
        Err(ProvisionError::BadInfoLength)
    );
    let mut other = info.clone();
    other[4] = b'2';
    assert_eq!(
        parse_provisioning_info(&other),
        Err(ProvisionError::BadInfoMagic)
    );
}

#[test]
fn plaintext_is_checked() {
    let parsed = |bytes: &[u8]| parse_wifi_plaintext(bytes).map(|wifi| (wifi.ssid, wifi.password));
    assert_eq!(
        parsed(b"\x02\x01abc"),
        Ok(("ab".to_string(), "c".to_string()))
    );
    assert_eq!(parsed(b"\x02"), Err(ProvisionError::PlaintextTooShort));
    assert_eq!(parsed(b"\x00\x01a"), Err(ProvisionError::BadSsidLength));
    assert_eq!(parsed(b"\x21\x01a"), Err(ProvisionError::BadSsidLength));
    assert_eq!(parsed(b"\x01\x41a"), Err(ProvisionError::BadPasswordLength));
    assert_eq!(
        parsed(b"\x02\x01ab"),
        Err(ProvisionError::PlaintextLengthMismatch)
    );
    assert_eq!(
        parsed(b"\x02\x01abcd"),
        Err(ProvisionError::PlaintextLengthMismatch)
    );
    assert_eq!(parsed(b"\x01\x01\xffc"), Err(ProvisionError::SsidNotText));
    assert_eq!(parsed(b"\x01\x01a\xff"), Err(ProvisionError::PasswordNotText));
}

#[test]
fn provisioning_errors_have_messages() {
    assert_eq!(
        ProvisionError::BadSetupCode.message(),
        "Bluetooth setup code must be 8 digits"
    );
    assert_eq!(ProvisionError::SsidMissing.message(), "Wi-Fi name is required");
    assert_eq!(
        ProvisionError::Decryption.message(),
        "decrypt provisioning payload"
    );
}
