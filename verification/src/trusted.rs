//! The trusted boundary: wrappers around the outside cryptography crates and
//! the few std conversions that vstd does not specify. Every other function
//! of this library is verified against the contracts stated here.

use aes_gcm::aead::{Aead, KeyInit};
use base64::Engine;
use rand::RngCore;
use vstd::prelude::*;
use vstd::utf8::{decode_utf8, valid_utf8};

verus! {

/// The ciphertext (with its appended tag) that AES-256-GCM produces for a
/// key, nonce and plaintext. Deterministic in its three arguments.
pub uninterp spec fn aead_cipher(key: Seq<u8>, nonce: Seq<u8>, plaintext: Seq<u8>) -> Seq<u8>;

/// What AES-256-GCM decryption yields for a key, nonce and ciphertext:
/// the plaintext, or nothing when authentication fails.
pub uninterp spec fn aead_open(key: Seq<u8>, nonce: Seq<u8>, ciphertext: Seq<u8>) -> Option<
    Seq<u8>,
>;

/// The largest plaintext AES-GCM encrypts: two to the power thirty-six
/// bytes.
pub open spec fn aead_pt_max() -> int {
    0x1000000000
}

/// The largest password, and the largest salt, Argon2 accepts.
pub open spec fn kdf_pwd_max() -> int {
    0xFFFFFFFF
}

/// Relies on aes_gcm::Aes256Gcm with aead::Aead::encrypt: the ciphertext is a
/// deterministic function of key, nonce and plaintext, is 16 bytes (the tag)
/// longer than the plaintext, and decrypting it with the same key and nonce
/// restores the plaintext. Its only failure is a plaintext over the cipher's
/// length bound, so success is promised below it.
#[verifier::external_body]
pub(crate) fn aead_encrypt(key: &[u8], nonce: &[u8], plaintext: &[u8]) -> (r: Result<Vec<u8>, ()>)
    requires
        key@.len() == 32,
        nonce@.len() == 12,
    ensures
        r matches Ok(c) ==> c@ == aead_cipher(key@, nonce@, plaintext@) && c@.len() == plaintext@.len() + 16
            && aead_open(key@, nonce@, c@) == Some(plaintext@),
        plaintext@.len() <= aead_pt_max() ==> r is Ok,
{
    let cipher = aes_gcm::Aes256Gcm::new(aes_gcm::Key::<aes_gcm::Aes256Gcm>::from_slice(key));
    cipher.encrypt(aes_gcm::Nonce::from_slice(nonce), plaintext).map_err(|_| ())
}

/// Relies on aes_gcm::Aes256Gcm with aead::Aead::decrypt: deterministic in
/// key, nonce and ciphertext; fails closed on any authentication failure and
/// never returns unauthenticated plaintext.
#[verifier::external_body]
pub(crate) fn aead_decrypt(key: &[u8], nonce: &[u8], ciphertext: &[u8]) -> (r: Result<
    Vec<u8>,
    (),
>)
    requires
        key@.len() == 32,
        nonce@.len() == 12,
    ensures
        r matches Ok(p) ==> aead_open(key@, nonce@, ciphertext@) == Some(p@),
        r is Err ==> aead_open(key@, nonce@, ciphertext@) is None,
{
    let cipher = aes_gcm::Aes256Gcm::new(aes_gcm::Key::<aes_gcm::Aes256Gcm>::from_slice(key));
    cipher.decrypt(aes_gcm::Nonce::from_slice(nonce), ciphertext).map_err(|_| ())
}

/// The standard base64 text for a byte sequence.
pub uninterp spec fn b64_of(bytes: Seq<u8>) -> Seq<char>;

/// What standard base64 decoding yields for a character sequence: the bytes,
/// or nothing when the text is not valid base64.
pub uninterp spec fn b64_parse(text: Seq<char>) -> Option<Seq<u8>>;

/// Relies on base64's STANDARD engine, Engine::encode: deterministic, and
/// decoding its output restores the input bytes.
#[verifier::external_body]
pub(crate) fn b64_encode(bytes: &[u8]) -> (r: String)
    ensures
        r@ == b64_of(bytes@),
        b64_parse(r@) == Some(bytes@),
{
    base64::engine::general_purpose::STANDARD.encode(bytes)
}

/// Relies on base64's STANDARD engine, Engine::decode: deterministic, and
/// fails exactly on text that is not valid standard base64.
#[verifier::external_body]
pub(crate) fn b64_decode(text: &str) -> (r: Result<Vec<u8>, ()>)
    ensures
        r matches Ok(v) ==> b64_parse(text@) == Some(v@),
        r is Err ==> b64_parse(text@) is None,
{
    base64::engine::general_purpose::STANDARD.decode(text).map_err(|_| ())
}

/// The 32-byte key that Argon2id with its default parameters derives from a
/// password and a salt, or nothing where derivation is impossible for those
/// argument lengths. Deterministic in both arguments.
pub uninterp spec fn argon2_key(password: Seq<u8>, salt: Seq<u8>) -> Option<Seq<u8>>;

/// Relies on argon2::Argon2::default() with hash_password_into: deterministic
/// in password and salt, filling the whole 32-byte output on success. Its
/// only failures are out-of-range lengths — a password over the bound, or a
/// salt shorter than eight bytes or over the bound — so success is promised
/// inside them.
#[verifier::external_body]
pub(crate) fn kdf_derive_key(password: &[u8], salt: &[u8]) -> (r: Result<Vec<u8>, ()>)
    ensures
        r matches Ok(k) ==> argon2_key(password@, salt@) == Some(k@) && k@.len() == 32,
        r is Err ==> argon2_key(password@, salt@) is None,
        password@.len() <= kdf_pwd_max() && 8 <= salt@.len() <= kdf_pwd_max() ==> r is Ok,
{
    let mut out = vec![0u8; 32];
    match argon2::Argon2::default().hash_password_into(password, salt, &mut out) {
        Ok(()) => Ok(out),
        Err(_) => Err(()),
    }
}

/// Relies on rand's OsRng (the operating system RNG) with RngCore::fill_bytes:
/// the contents are unpredictable, so only the length is stated.
#[verifier::external_body]
pub(crate) fn random_bytes(n: usize) -> (r: Vec<u8>)
    ensures
        r@.len() == n,
{
    let mut buf = vec![0u8; n];
    rand::rngs::OsRng.fill_bytes(&mut buf);
    buf
}

/// Relies on String::from_utf8: succeeds exactly on valid UTF-8 and decodes
/// it to the characters that vstd's UTF-8 model describes.
#[verifier::external_body]
pub(crate) fn bytes_to_string(bytes: Vec<u8>) -> (r: Result<String, ()>)
    ensures
        r matches Ok(s) ==> valid_utf8(bytes@) && s@ == decode_utf8(bytes@),
        r is Err ==> !valid_utf8(bytes@),
{
    String::from_utf8(bytes).map_err(|_| ())
}

/// Relies on str::chars: yields the characters of the string in order.
#[verifier::external_body]
pub fn str_to_chars(s: &str) -> (r: Vec<char>)
    ensures
        r@ == s@,
{
    s.chars().collect()
}

/// Relies on String's FromIterator over char: collects the characters in
/// order.
#[verifier::external_body]
pub fn chars_to_string(v: &Vec<char>) -> (r: String)
    ensures
        r@ == v@,
{
    v.iter().collect()
}

} // verus!
