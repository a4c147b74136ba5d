use ykoath::reader::{find, is_yubikey, READER_NAME};
use ykoath::Error;

#[test]
fn the_reader_name_is_yubico_yubikey() {
    assert_eq!(&READER_NAME, b"yubico yubikey");
}

#[test]
fn a_reader_is_known_by_its_name() {
    assert!(is_yubikey(b"yubico yubikey"));
    assert!(is_yubikey(b"Yubico YubiKey OTP+FIDO+CCID 00 00"));
    assert!(is_yubikey(b"Yubico Yubikey 4 OTP+U2F+CCID"));
    assert!(is_yubikey(b"reader 1: YUBICO YUBIKEY"));
    assert!(is_yubikey(b"yyubico yubikey"));
}

#[test]
fn other_readers_are_not_a_yubikey() {
    assert!(!is_yubikey(b""));
    assert!(!is_yubikey(b"yubico yubike"));
    assert!(!is_yubikey(b"yubico  yubikey"));
    assert!(!is_yubikey(b"yubico_yubikey"));
    assert!(!is_yubikey(b"Gemalto PC Twin Reader 00 00"));
    assert!(!is_yubikey(b"yubikey yubico"));
    assert!(!is_yubikey(b"YUBICO\x00YUBIKEY"));
    assert!(!is_yubikey(b"yubicO@yubikey"));
}

#[test]
fn only_ascii_capitals_are_folded() {
    assert!(!is_yubikey(b"\x59ubico\x00yubikey"));
    assert!(!is_yubikey(b"\xf9ubico yubikey"));
    assert!(!is_yubikey(b"yubico\x80yubikey"));
    assert!(!is_yubikey(b"[ubico yubikey"));
    assert!(!is_yubikey(b"yubico\x00yubikey"));
}

#[test]
fn is_yubikey_agrees_with_a_search_in_lower_case() {
    let names: [&[u8]; 6] = [
        b"Yubico YubiKey",
        b"xxYUBICO YUBIKEYxx",
        b"yubico yubike",
        b"Yubico Yubi Key",
        b"a yubico yubikeY",
        b"ubico yubikey",
    ];
    for name in names {
        let expected = name
            .to_ascii_lowercase()
            .windows(READER_NAME.len())
            .any(|window| window == READER_NAME);
        assert_eq!(is_yubikey(name), expected);
    }
}

#[test]
fn find_picks_the_first_yubikey() {
    let names = vec![
        b"Gemalto PC Twin Reader 00 00".to_vec(),
        b"Yubico YubiKey OTP+FIDO+CCID 00 00".to_vec(),
        b"Yubico YubiKey CCID 01 00".to_vec(),
    ];
    assert_eq!(find(&names), Ok(1));
    assert_eq!(find(&names[1..]), Ok(0));
    assert_eq!(find(&names[2..]), Ok(0));
}

#[test]
fn find_without_a_yubikey_is_no_device() {
    assert_eq!(find(&[]), Err(Error::NoDevice));
    assert_eq!(find(&[b"Gemalto PC Twin Reader 00 00".to_vec()]), Err(Error::NoDevice));
}
