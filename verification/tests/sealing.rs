use base64::Engine;
use prompt_store::crypto::{
    decrypt_key_with_password, key_from_file_bytes, open_record_text, seal_record_text,
    wrap_key_with_password,
};
use prompt_store::errors::StoreError;

fn key() -> Vec<u8> {
    (0u8..32).collect()
}

#[test]
fn seal_open_round_trip() {
    let k = key();
    let plain = "The quick brown fox, with unicode: héllo ☃ and \"quotes\"\nlines".to_string();
    let sealed = seal_record_text(&k, &plain).unwrap();
    let opened = open_record_text(&k, &sealed).unwrap();
    assert_eq!(opened, plain);
}

#[test]
fn open_fails_under_other_key() {
    let k = key();
    let mut k2 = key();
    k2[0] ^= 1;
    let sealed = seal_record_text(&k, &"secret".to_string()).unwrap();
    assert!(matches!(open_record_text(&k2, &sealed), Err(StoreError::Crypto(_))));
}

#[test]
fn tampering_any_bit_fails_decryption() {
    let k = key();
    let sealed = seal_record_text(&k, &"payload".to_string()).unwrap();
    let raw = base64::engine::general_purpose::STANDARD.decode(&sealed).unwrap();
    for byte in 0..raw.len() {
        for bit in 0..8 {
            let mut tampered = raw.clone();
            tampered[byte] ^= 1 << bit;
            let text = base64::engine::general_purpose::STANDARD.encode(&tampered);
            let r = open_record_text(&k, &text);
            assert!(
                matches!(r, Err(StoreError::Crypto(_))),
                "bit flip at byte {} bit {} was not rejected",
                byte,
                bit
            );
        }
    }
}

#[test]
fn open_rejects_bad_base64_and_short_data() {
    let k = key();
    assert!(matches!(
        open_record_text(&k, &"not base64 !!!".to_string()),
        Err(StoreError::Crypto(_))
    ));
    let short = base64::engine::general_purpose::STANDARD.encode([1u8, 2, 3]);
    assert!(matches!(open_record_text(&k, &short), Err(StoreError::Crypto(_))));
}

#[test]
fn key_wrap_round_trip() {
    let raw = key();
    let wrapped = wrap_key_with_password(&raw, "hunter2").unwrap();
    assert_eq!(&wrapped[0..4], &b"PSWD"[..]);
    let unwrapped = decrypt_key_with_password(&wrapped, "hunter2").unwrap();
    assert_eq!(unwrapped, raw);
}

#[test]
fn key_wrap_rejects_wrong_password() {
    let raw = key();
    let wrapped = wrap_key_with_password(&raw, "hunter2").unwrap();
    assert!(matches!(
        decrypt_key_with_password(&wrapped, "hunter3"),
        Err(StoreError::Crypto(_))
    ));
}

#[test]
fn key_unwrap_rejects_unwrapped_and_truncated() {
    let raw = key();
    assert!(matches!(decrypt_key_with_password(&raw, "pw"), Err(StoreError::Crypto(_))));
    let wrapped = wrap_key_with_password(&raw, "pw").unwrap();
    let truncated: Vec<u8> = wrapped[0..20].to_vec();
    assert!(matches!(
        decrypt_key_with_password(&truncated, "pw"),
        Err(StoreError::Crypto(_))
    ));
}

#[test]
fn key_file_raw_and_wrapped() {
    let raw = key();
    let (got, wrapped_flag) = key_from_file_bytes(&raw, None).unwrap();
    assert_eq!(got, raw);
    assert!(!wrapped_flag);

    let wrapped = wrap_key_with_password(&raw, "pw").unwrap();
    let (got2, flag2) = key_from_file_bytes(&wrapped, Some("pw")).unwrap();
    assert_eq!(got2, raw);
    assert!(flag2);

    let short: Vec<u8> = raw[0..31].to_vec();
    assert!(key_from_file_bytes(&short, None).is_err());
    assert!(key_from_file_bytes(&wrapped, None).is_err());
}
