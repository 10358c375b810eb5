//! Trusted bindings to the outside cryptographic routines.
//!
//! Every function here is `external_body`: its contract is what the rest of
//! the library builds on, and each doc comment names the outside function it
//! relies on.  Results that are functions of the arguments alone but are too
//! large to state (the Argon2 digest, AES-GCM decryption, the base64 text)
//! are given uninterpreted names.

use vstd::prelude::*;
use vstd::utf8::{encode_utf8, valid_utf8};
use aes_gcm::aead::{Aead, KeyInit};
use base64::Engine;
use rand::RngCore;

verus! {

/// The 32-byte Argon2id digest of a password and a salt, under the `argon2`
/// crate's default parameters.  The digest depends on those two inputs alone.
pub uninterp spec fn argon2_digest(password: Seq<u8>, salt: Seq<u8>) -> Seq<u8>;

/// What AES-256-GCM decryption of `ciphertext` under `key` and `nonce`
/// returns: the plaintext when the authentication tag verifies, `None`
/// otherwise.  Decryption is a function of these three inputs alone.
pub uninterp spec fn aead_open(key: Seq<u8>, nonce: Seq<u8>, ciphertext: Seq<u8>) -> Option<
    Seq<u8>,
>;

/// The standard base64 text (RFC 4648, with padding) that encodes `bytes`.
pub uninterp spec fn b64_of(bytes: Seq<u8>) -> Seq<char>;

/// Relies on `argon2::Argon2::hash_password_into` with the crate's default
/// parameters.  The crate rejects only out-of-range lengths (password over
/// 2^32 - 1 bytes, salt outside 8..=2^32 - 1 bytes, output under 4 bytes), so
/// for the inputs admitted here the call fills the 32-byte output and cannot
/// fail; the digest is a deterministic function of password and salt.
#[verifier::external_body]
pub(crate) fn argon2_digest32(password: &[u8], salt: &[u8]) -> (r: Vec<u8>)
    requires
        password@.len() <= 0xFFFF_FFFF,
        salt@.len() == 16,
    ensures
        r@ == argon2_digest(password@, salt@),
        r@.len() == 32,
{
    let mut out = vec![0u8; 32];
    argon2::Argon2::default().hash_password_into(password, salt, &mut out).unwrap();
    out
}

/// Relies on `aes_gcm::Aes256Gcm::encrypt` (the `aead::Aead` trait): the
/// result is ciphertext plus a 16-byte tag, and decrypting it with the same
/// key and nonce gives back the plaintext; the call fails only when the
/// plaintext exceeds the AES-GCM length bound of 2^36 bytes.
#[verifier::external_body]
pub(crate) fn aead_encrypt(key: &[u8], nonce: &[u8], plaintext: &[u8]) -> (r: Option<Vec<u8>>)
    requires
        key@.len() == 32,
        nonce@.len() == 12,
    ensures
        r matches Some(ct) ==> aead_open(key@, nonce@, ct@) == Some(plaintext@) && ct@.len()
            == plaintext@.len() + 16 && plaintext@.len() <= 0x10_0000_0000,
        plaintext@.len() < 0x10_0000_0000 ==> r is Some,
{
    let cipher = aes_gcm::Aes256Gcm::new(aes_gcm::Key::<aes_gcm::Aes256Gcm>::from_slice(key));
    cipher.encrypt(aes_gcm::Nonce::from_slice(nonce), plaintext).ok()
}

/// Relies on `aes_gcm::Aes256Gcm::decrypt` (the `aead::Aead` trait): it
/// returns the plaintext exactly when the authentication tag verifies, which
/// is a function of key, nonce and ciphertext alone.
#[verifier::external_body]
pub(crate) fn aead_decrypt(key: &[u8], nonce: &[u8], ciphertext: &[u8]) -> (r: Option<Vec<u8>>)
    requires
        key@.len() == 32,
        nonce@.len() == 12,
    ensures
        match r {
            Some(pt) => aead_open(key@, nonce@, ciphertext@) == Some(pt@),
            None => aead_open(key@, nonce@, ciphertext@) is None,
        },
{
    let cipher = aes_gcm::Aes256Gcm::new(aes_gcm::Key::<aes_gcm::Aes256Gcm>::from_slice(key));
    cipher.decrypt(aes_gcm::Nonce::from_slice(nonce), ciphertext).ok()
}

/// Relies on `base64::engine::general_purpose::STANDARD.encode`: the text is
/// the canonical padded base64 form of the input, and base64 is injective
/// (`decode` inverts it), so no other byte string encodes to the same text.
/// The length cap keeps the encoded length within `usize`, which is the
/// call's only panic condition.
#[verifier::external_body]
pub(crate) fn b64_encode(bytes: &[u8]) -> (r: String)
    requires
        bytes@.len() < 0x1000_0000_0000_0000,
    ensures
        r@ == b64_of(bytes@),
        forall|other: Seq<u8>| r@ == b64_of(other) ==> other == bytes@,
{
    base64::engine::general_purpose::STANDARD.encode(bytes)
}

/// Relies on `base64::engine::general_purpose::STANDARD.decode`: the engine
/// requires canonical padding and rejects set trailing bits, so it accepts
/// exactly the canonical encodings, and on those it inverts `encode`.
#[verifier::external_body]
pub(crate) fn b64_decode(text: &str) -> (r: Option<Vec<u8>>)
    ensures
        match r {
            Some(b) => text@ == b64_of(b@) && forall|other: Seq<u8>|
                text@ == b64_of(other) ==> other == b@,
            None => forall|b: Seq<u8>| text@ != b64_of(b),
        },
{
    base64::engine::general_purpose::STANDARD.decode(text).ok()
}

/// Relies on `rand::rngs::OsRng` through `RngCore::try_fill_bytes`: on
/// success the buffer holds 12 bytes from the operating system's random
/// source; nothing is promised of their values.
#[verifier::external_body]
pub(crate) fn random_nonce() -> (r: Option<Vec<u8>>)
    ensures
        r matches Some(n) ==> n@.len() == 12,
{
    let mut bytes = [0u8; 12];
    match rand::rngs::OsRng.try_fill_bytes(&mut bytes) {
        Ok(()) => Some(bytes.to_vec()),
        Err(_) => None,
    }
}

/// Relies on `uuid::Uuid::new_v4` and the `uuid` crate's hyphenated text
/// form, which is always 36 characters; the value itself is random.
#[verifier::external_body]
pub(crate) fn fresh_uuid() -> (r: String)
    ensures
        r@.len() == 36,
{
    uuid::Uuid::new_v4().to_string()
}

/// Relies on `std::string::String::from_utf8`: it succeeds exactly on valid
/// UTF-8 and returns the string those bytes spell.
#[verifier::external_body]
pub(crate) fn bytes_to_string(bytes: Vec<u8>) -> (r: Option<String>)
    ensures
        match r {
            Some(s) => encode_utf8(s@) == bytes@,
            None => !valid_utf8(bytes@),
        },
{
    String::from_utf8(bytes).ok()
}

} // verus!
