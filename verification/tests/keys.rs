use binance_pnl::hexadecimal::HexError;
use binance_pnl::notary_key::{
    existing_key_plan, load_or_create_signing_key, new_key_plan, notary_public_key, parse_key_hex,
    public_key_text, KeyError, SigningKeyPlan,
};
use binance_pnl::signing::{sign_request, signature_text};

const ONE: &str = "0000000000000000000000000000000000000000000000000000000000000001";

#[test]
fn a_key_is_read_from_hex() {
    let key = parse_key_hex(ONE).ok().unwrap();
    assert_eq!(key[31], 1);
    assert_eq!(key[..31], [0u8; 31]);
    let upper = parse_key_hex(&"AbcDEF01".repeat(8)).ok().unwrap();
    assert_eq!(upper[..4], [0xab, 0xcd, 0xef, 0x01]);
}

#[test]
fn an_odd_number_of_digits_is_refused() {
    let error = parse_key_hex("abc").err().unwrap();
    assert!(matches!(error, KeyError::NotHex(HexError::OddLength)));
    assert_eq!(error.message(), "Notary key file is not valid hex");
}

#[test]
fn the_first_non_digit_is_reported() {
    let error = parse_key_hex("00x0z0").err().unwrap();
    assert!(matches!(
        error,
        KeyError::NotHex(HexError::InvalidHexCharacter { c: 'x', index: 2 })
    ));
}

#[test]
fn a_key_of_another_length_is_refused() {
    let error = parse_key_hex("0011").err().unwrap();
    assert!(matches!(error, KeyError::WrongLength(2)));
    assert_eq!(
        error.message(),
        "Notary key must be exactly 32 bytes (64 hex chars), got 2 bytes"
    );
}

#[test]
fn white_space_around_a_key_does_not_count() {
    let text = format!(" \t{}\r\n\n", ONE);
    match existing_key_plan(&text) {
        SigningKeyPlan::Use(key) => assert_eq!(key[31], 1),
        _ => panic!("the key is there"),
    }
    assert!(matches!(existing_key_plan("nothing"), SigningKeyPlan::Reject(_)));
}

#[test]
fn a_key_file_reads_back() {
    let mut key = [0u8; 32];
    for i in 0..32 {
        key[i] = (i * 8 + 3) as u8;
    }
    match new_key_plan(key) {
        SigningKeyPlan::Create { key: used, file_text } => {
            assert_eq!(used, key);
            assert_eq!(file_text.len(), 65);
            assert!(file_text.ends_with('\n'));
            assert!(file_text.starts_with("030b131b"));
            match existing_key_plan(&file_text) {
                SigningKeyPlan::Use(read) => assert_eq!(read, key),
                _ => panic!("the file holds a key"),
            }
        }
        _ => panic!("there is no file yet"),
    }
}

#[test]
fn a_missing_file_gets_a_usable_key() {
    match load_or_create_signing_key(None) {
        SigningKeyPlan::Create { key, file_text } => {
            let point = notary_public_key(&key).unwrap();
            assert_eq!(point.len(), 65);
            match load_or_create_signing_key(Some(&file_text)) {
                SigningKeyPlan::Use(read) => assert_eq!(read, key),
                _ => panic!("the file holds a key"),
            }
        }
        _ => panic!("there is no file yet"),
    }
}

#[test]
fn two_new_keys_differ() {
    let a = load_or_create_signing_key(None);
    let b = load_or_create_signing_key(None);
    match (a, b) {
        (SigningKeyPlan::Create { key: a, .. }, SigningKeyPlan::Create { key: b, .. }) => {
            assert_ne!(a, b)
        }
        _ => panic!("there is no file yet"),
    }
}

#[test]
fn the_public_key_of_one_is_the_generator() {
    let key = parse_key_hex(ONE).ok().unwrap();
    let point = notary_public_key(&key).unwrap();
    assert_eq!(
        public_key_text(&point),
        "0479be667ef9dcbbac55a06295ce870b07029bfcdb2dce28d959f2815b16f81798\
         483ada7726a3c4655da4fbfc0e1108a8fd17b448a68554199c47d08ffb10d4b8"
    );
}

#[test]
fn keys_outside_the_group_order_are_refused() {
    assert!(notary_public_key(&[0u8; 32]).is_none());
    let order = parse_key_hex("fffffffffffffffffffffffffffffffebaaedce6af48a03bbfd25e8cd0364141")
        .ok()
        .unwrap();
    assert!(notary_public_key(&order).is_none());
    let last = parse_key_hex("fffffffffffffffffffffffffffffffebaaedce6af48a03bbfd25e8cd0364140")
        .ok()
        .unwrap();
    assert!(notary_public_key(&last).is_some());
}

#[test]
fn a_query_is_signed_with_hmac_sha256() {
    assert_eq!(
        sign_request("The quick brown fox jumps over the lazy dog", "key"),
        "f7bc83f430538424b13298e6aa6fb143ef4d59a14946175997479dbc2d1a3cd8"
    );
    assert_eq!(sign_request("", "").len(), 64);
    assert_ne!(sign_request("a", "key"), sign_request("a", "other"));
}

#[test]
fn a_code_becomes_small_hex_digits() {
    assert_eq!(signature_text(&[0x00, 0x0f, 0xa0, 0xff]), "000fa0ff");
}
