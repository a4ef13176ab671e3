//! Sealing and opening of stored text under the master key, and wrapping of
//! the master key itself under a password-derived key.
//!
//! On-disk record shape: `base64(nonce[12] || ciphertext-with-tag)`. Wrapped
//! key shape: `"PSWD" || salt[16] || nonce[12] || ciphertext-with-tag`.

use crate::errors::StoreError;
use crate::trusted::{
    aead_cipher, aead_decrypt, aead_encrypt, aead_open, aead_pt_max, argon2_key, b64_decode,
    b64_encode, b64_of, b64_parse, bytes_to_string, kdf_derive_key, kdf_pwd_max, random_bytes,
};
use vstd::prelude::*;
use vstd::string::StrSliceExecFns;
use vstd::utf8::{decode_utf8, encode_utf8, valid_utf8};

verus! {

/// The bytes a stored text denotes: base64, then the twelve-byte nonce and
/// the authenticated ciphertext; nothing when decoding or authentication
/// fails.
pub open spec fn open_bytes_spec(key: Seq<u8>, file_text: Seq<char>) -> Option<Seq<u8>> {
    match b64_parse(file_text) {
        None => None,
        Some(data) => if data.len() < 12 {
            None
        } else {
            aead_open(key, data.subrange(0, 12), data.subrange(12, data.len() as int))
        },
    }
}

/// The plaintext text a stored text denotes: the opened bytes read as UTF-8.
pub open spec fn open_text_spec(key: Seq<u8>, file_text: Seq<char>) -> Option<Seq<char>> {
    match open_bytes_spec(key, file_text) {
        None => None,
        Some(pt) => if valid_utf8(pt) {
            Some(decode_utf8(pt))
        } else {
            None
        },
    }
}

/// The stored text for a plaintext under a given nonce.
pub open spec fn seal_text_spec(key: Seq<u8>, nonce: Seq<u8>, plain: Seq<char>) -> Seq<char> {
    b64_of(nonce + aead_cipher(key, nonce, encode_utf8(plain)))
}

/// Opens a stored text: decodes the base64, splits off the nonce,
/// authenticates and decrypts, and reads the plaintext as UTF-8. Fails closed
/// with a Crypto error on decoding or authentication failure, and with a Json
/// error when the authenticated plaintext is not UTF-8.
pub fn open_record_text(key: &Vec<u8>, file_text: &String) -> (r: Result<String, StoreError>)
    requires
        key@.len() == 32,
    ensures
        r matches Ok(s) ==> open_text_spec(key@, file_text@) == Some(s@),
        open_text_spec(key@, file_text@) matches Some(s) ==> r matches Ok(v) && v@ == s,
        r matches Err(e) ==> open_text_spec(key@, file_text@) is None && ((open_bytes_spec(
            key@,
            file_text@,
        ) is None && e is Crypto) || (open_bytes_spec(key@, file_text@) is Some && e is Json)),
{
    let data = match b64_decode(file_text.as_str()) {
        Ok(d) => d,
        Err(_) => {
            return Err(StoreError::Crypto("Invalid Base64 data.".to_string()));
        },
    };
    if data.len() < 12 {
        return Err(StoreError::Crypto("Data is too short to be valid.".to_string()));
    }
    let nonce = slice_range(&data, 0, 12);
    let ct = slice_range(&data, 12, data.len());
    let pt = match aead_decrypt(key.as_slice(), nonce.as_slice(), ct.as_slice()) {
        Ok(p) => p,
        Err(_) => {
            return Err(
                StoreError::Crypto("Decryption failed. Check key or password.".to_string()),
            );
        },
    };
    match bytes_to_string(pt) {
        Ok(s) => Ok(s),
        Err(_) => Err(StoreError::Json("Record is not valid UTF-8.".to_string())),
    }
}

/// Seals a plaintext under the key with a fresh random nonce. The contract
/// carries the round trip — opening the sealed text restores the plaintext —
/// and success is promised whenever the encoded plaintext is within the
/// cipher's length bound.
pub fn seal_record_text(key: &Vec<u8>, plain: &String) -> (r: Result<String, StoreError>)
    requires
        key@.len() == 32,
    ensures
        r matches Ok(s) ==> open_text_spec(key@, s@) == Some(plain@) && exists|nonce: Seq<u8>|
            nonce.len() == 12 && s@ == seal_text_spec(key@, nonce, plain@),
        r matches Err(e) ==> e is Crypto,
        encode_utf8(plain@).len() <= aead_pt_max() ==> r is Ok,
{
    let nonce = random_bytes(12);
    let pt_bytes = str_bytes(plain.as_str());
    let mut ct = match aead_encrypt(key.as_slice(), nonce.as_slice(), pt_bytes.as_slice()) {
        Ok(c) => c,
        Err(_) => {
            return Err(StoreError::Crypto("Encrypt error".to_string()));
        },
    };
    let ghost nonce_v = nonce@;
    let ghost ct_v = ct@;
    let mut data = nonce;
    data.append(&mut ct);
    let s = b64_encode(data.as_slice());
    proof {
        assert(data@ =~= nonce_v + ct_v);
        assert(data@.subrange(0, 12) =~= nonce_v);
        assert(data@.subrange(12, data@.len() as int) =~= ct_v);
        vstd::utf8::encode_utf8_valid_utf8(plain@);
        vstd::utf8::encode_utf8_decode_utf8(plain@);
        assert(open_text_spec(key@, s@) == Some(plain@));
        assert(s@ == seal_text_spec(key@, nonce_v, plain@));
    }
    Ok(s)
}

/// Copies a byte range out of a vector.
pub fn slice_range(data: &Vec<u8>, from: usize, to: usize) -> (r: Vec<u8>)
    requires
        from <= to <= data@.len(),
    ensures
        r@ == data@.subrange(from as int, to as int),
{
    let mut out: Vec<u8> = Vec::new();
    let mut i = from;
    while i < to
        invariant
            from <= i <= to <= data@.len(),
            out@ =~= data@.subrange(from as int, i as int),
        decreases to - i,
    {
        out.push(data[i]);
        proof {
            assert(out@ =~= data@.subrange(from as int, i + 1));
        }
        i += 1;
    }
    out
}

/// The UTF-8 bytes of a string.
pub fn str_bytes(s: &str) -> (r: Vec<u8>)
    ensures
        r@ == encode_utf8(s@),
{
    s.as_bytes_vec()
}

/// The four magic bytes marking a password-wrapped key file.
pub open spec fn magic_pswd() -> Seq<u8> {
    seq![80u8, 83u8, 87u8, 68u8]
}

/// The raw master key a wrapped key file denotes under a password: Argon2id
/// over the stored salt gives the wrapping key, which must authenticate the
/// ciphertext and yield exactly 32 bytes.
pub open spec fn unwrap_key_spec(data: Seq<u8>, password: Seq<u8>) -> Option<Seq<u8>> {
    if data.len() < 32 || data.subrange(0, 4) != magic_pswd() {
        None
    } else {
        match argon2_key(password, data.subrange(4, 20)) {
            None => None,
            Some(k) => match aead_open(
                k,
                data.subrange(20, 32),
                data.subrange(32, data.len() as int),
            ) {
                None => None,
                Some(raw) => if raw.len() == 32 {
                    Some(raw)
                } else {
                    None
                },
            },
        }
    }
}

/// Whether a key file is password-wrapped: it starts with the magic bytes.
pub open spec fn is_wrapped_spec(data: Seq<u8>) -> bool {
    data.len() >= 4 && data.subrange(0, 4) == magic_pswd()
}

/// Reports whether a key file is password-wrapped.
pub fn is_wrapped_key(data: &Vec<u8>) -> (r: bool)
    ensures
        r == is_wrapped_spec(data@),
{
    if data.len() >= 4 && data[0] == 80 && data[1] == 83 && data[2] == 87 && data[3] == 68 {
        proof {
            assert(data@.subrange(0, 4) =~= magic_pswd());
        }
        true
    } else {
        proof {
            if data@.len() >= 4 && data@.subrange(0, 4) == magic_pswd() {
                assert(data@.subrange(0, 4)[0] == 80 && data@.subrange(0, 4)[1] == 83
                    && data@.subrange(0, 4)[2] == 87 && data@.subrange(0, 4)[3] == 68);
            }
        }
        false
    }
}

/// Unwraps the master key from a password-wrapped key file. Fails closed: a
/// missing magic, a short file, a key-derivation failure, a wrong password or
/// any corruption gives a Crypto error and never partial plaintext.
pub fn decrypt_key_with_password(key_data: &Vec<u8>, password: &str) -> (r: Result<
    Vec<u8>,
    StoreError,
>)
    ensures
        r matches Ok(k) ==> unwrap_key_spec(key_data@, encode_utf8(password@)) == Some(k@)
            && k@.len() == 32,
        r is Err ==> unwrap_key_spec(key_data@, encode_utf8(password@)) is None,
        r matches Err(e) ==> e is Crypto,
{
    if !is_wrapped_key(key_data) {
        return Err(StoreError::Crypto("Key is not password protected.".to_string()));
    }
    if key_data.len() < 32 {
        return Err(StoreError::Crypto("Corrupted password key".to_string()));
    }
    let salt = slice_range(key_data, 4, 20);
    let nonce = slice_range(key_data, 20, 32);
    let ct = slice_range(key_data, 32, key_data.len());
    let pw = str_bytes(password);
    let pwd_key = match kdf_derive_key(pw.as_slice(), salt.as_slice()) {
        Ok(k) => k,
        Err(_) => {
            return Err(StoreError::Crypto("KDF error".to_string()));
        },
    };
    let raw = match aead_decrypt(pwd_key.as_slice(), nonce.as_slice(), ct.as_slice()) {
        Ok(p) => p,
        Err(_) => {
            return Err(StoreError::Crypto("Invalid password".to_string()));
        },
    };
    if raw.len() != 32 {
        return Err(StoreError::Crypto("Corrupted key".to_string()));
    }
    Ok(raw)
}

/// Wraps a raw master key under a password: fresh salt and nonce, Argon2id
/// wrapping key, authenticated encryption. The contract carries the round
/// trip — unwrapping with the same password restores the key — and success is
/// promised whenever the encoded password is within the derivation bound.
pub fn wrap_key_with_password(raw: &Vec<u8>, password: &str) -> (r: Result<Vec<u8>, StoreError>)
    requires
        raw@.len() == 32,
    ensures
        r matches Ok(data) ==> unwrap_key_spec(data@, encode_utf8(password@)) == Some(raw@)
            && is_wrapped_spec(data@),
        r matches Err(e) ==> e is Crypto,
        encode_utf8(password@).len() <= kdf_pwd_max() ==> r is Ok,
{
    let salt = random_bytes(16);
    let pw = str_bytes(password);
    let pwd_key = match kdf_derive_key(pw.as_slice(), salt.as_slice()) {
        Ok(k) => k,
        Err(_) => {
            return Err(StoreError::Crypto("KDF error".to_string()));
        },
    };
    let nonce = random_bytes(12);
    let mut ct = match aead_encrypt(pwd_key.as_slice(), nonce.as_slice(), raw.as_slice()) {
        Ok(c) => c,
        Err(_) => {
            return Err(StoreError::Crypto("Encrypt error".to_string()));
        },
    };
    let ghost salt_v = salt@;
    let ghost nonce_v = nonce@;
    let ghost ct_v = ct@;
    let mut data: Vec<u8> = Vec::new();
    data.push(80);
    data.push(83);
    data.push(87);
    data.push(68);
    let mut salt_m = salt;
    data.append(&mut salt_m);
    let mut nonce_m = nonce;
    data.append(&mut nonce_m);
    data.append(&mut ct);
    proof {
        assert(data@ =~= magic_pswd() + salt_v + nonce_v + ct_v);
        assert(data@.subrange(0, 4) =~= magic_pswd());
        assert(data@.subrange(4, 20) =~= salt_v);
        assert(data@.subrange(20, 32) =~= nonce_v);
        assert(data@.subrange(32, data@.len() as int) =~= ct_v);
    }
    Ok(data)
}

/// Opens a stored text to its raw plaintext bytes: base64, nonce split,
/// authenticated decryption. Fails closed with a Crypto error.
pub fn open_record_bytes(key: &Vec<u8>, file_text: &String) -> (r: Result<Vec<u8>, StoreError>)
    requires
        key@.len() == 32,
    ensures
        r matches Ok(p) ==> open_bytes_spec(key@, file_text@) == Some(p@),
        r is Err ==> open_bytes_spec(key@, file_text@) is None,
        r matches Err(e) ==> e is Crypto,
{
    let data = match b64_decode(file_text.as_str()) {
        Ok(d) => d,
        Err(_) => {
            return Err(StoreError::Crypto("Corrupted data".to_string()));
        },
    };
    if data.len() < 12 {
        return Err(StoreError::Crypto("Corrupted data".to_string()));
    }
    let nonce = slice_range(&data, 0, 12);
    let ct = slice_range(&data, 12, data.len());
    match aead_decrypt(key.as_slice(), nonce.as_slice(), ct.as_slice()) {
        Ok(p) => Ok(p),
        Err(_) => Err(StoreError::Crypto("Decrypt error".to_string())),
    }
}

/// Seals raw plaintext bytes under the key with a fresh random nonce; opening
/// the sealed text restores the bytes, and success is promised within the
/// cipher's length bound.
pub fn seal_record_bytes(key: &Vec<u8>, plain: &Vec<u8>) -> (r: Result<String, StoreError>)
    requires
        key@.len() == 32,
    ensures
        r matches Ok(s) ==> open_bytes_spec(key@, s@) == Some(plain@),
        r matches Err(e) ==> e is Crypto,
        plain@.len() <= aead_pt_max() ==> r is Ok,
{
    let nonce = random_bytes(12);
    let mut ct = match aead_encrypt(key.as_slice(), nonce.as_slice(), plain.as_slice()) {
        Ok(c) => c,
        Err(_) => {
            return Err(StoreError::Crypto("Encrypt error".to_string()));
        },
    };
    let ghost nonce_v = nonce@;
    let ghost ct_v = ct@;
    let mut data = nonce;
    data.append(&mut ct);
    let s = b64_encode(data.as_slice());
    proof {
        assert(data@ =~= nonce_v + ct_v);
        assert(data@.subrange(0, 12) =~= nonce_v);
        assert(data@.subrange(12, data@.len() as int) =~= ct_v);
    }
    Ok(s)
}

/// Reads a key file: a wrapped file needs the password; a raw file must hold
/// exactly 32 bytes. The flag reports whether the key was password-wrapped.
pub fn key_from_file_bytes(data: &Vec<u8>, password: Option<&str>) -> (r: Result<
    (Vec<u8>, bool),
    StoreError,
>)
    ensures
        r matches Ok(p) ==> p.0@.len() == 32 && (p.1 == is_wrapped_spec(data@)) && (
        !is_wrapped_spec(data@) ==> p.0@ == data@) && (is_wrapped_spec(data@) ==> (
        password matches Some(pw) && unwrap_key_spec(data@, encode_utf8(pw@)) == Some(p.0@))),
        (r is Err && is_wrapped_spec(data@)) ==> (password matches Some(pw) ==> unwrap_key_spec(
            data@,
            encode_utf8(pw@),
        ) is None),
        (r is Err && !is_wrapped_spec(data@)) ==> data@.len() != 32,
{
    if is_wrapped_key(data) {
        match password {
            Some(pw) => {
                let raw = decrypt_key_with_password(data, pw)?;
                Ok((raw, true))
            },
            None => Err(StoreError::Crypto("Key file is password protected.".to_string())),
        }
    } else {
        if data.len() != 32 {
            return Err(StoreError::Crypto("Invalid key length".to_string()));
        }
        let raw = slice_range(data, 0, data.len());
        proof {
            assert(raw@ =~= data@);
        }
        Ok((raw, false))
    }
}

} // verus!
