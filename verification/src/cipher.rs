//! Authenticated encryption of text payloads.
//!
//! A payload is sealed as `nonce (12 bytes) || ciphertext+tag` under
//! AES-256-GCM with a fresh random nonce on every call, and is carried as
//! raw bytes or as base64 text.  Decryption fails uniformly — bad base64,
//! a short blob, a failed tag check, or non-UTF-8 plaintext are all the
//! same "cannot decrypt" — so a caller learns nothing about which it was.

use vstd::prelude::*;
use vstd::utf8::{decode_utf8, encode_utf8, valid_utf8};
use crate::VaultError;
use crate::keys::{account_key, derive_encryption_key, MAX_IDENTIFIER_BYTES};
use crate::primitives::{
    aead_decrypt,
    aead_encrypt,
    aead_open,
    b64_decode,
    b64_encode,
    b64_of,
    bytes_to_string,
    random_nonce,
};

verus! {

broadcast use vstd::utf8::encode_utf8_valid_utf8, vstd::utf8::encode_utf8_decode_utf8;

/// What decrypting a raw blob (`nonce || ciphertext+tag`) under `key`
/// yields: the plaintext text when the blob is long enough, the tag
/// verifies and the plaintext is valid UTF-8; nothing otherwise.
pub open spec fn open_blob(blob: Seq<u8>, key: Seq<u8>) -> Option<Seq<char>> {
    if blob.len() < 12 {
        None
    } else {
        match aead_open(key, blob.take(12), blob.skip(12)) {
            Some(pt) => if valid_utf8(pt) {
                Some(decode_utf8(pt))
            } else {
                None
            },
            None => None,
        }
    }
}

/// The base64 text `stored` is an encryption of `content` under `key`:
/// it is the encoding of some blob, and every blob it encodes opens to
/// `content`.
pub open spec fn stores_content(stored: Seq<char>, key: Seq<u8>, content: Seq<char>) -> bool {
    &&& exists|b: Seq<u8>| stored == b64_of(b)
    &&& forall|b: Seq<u8>| stored == b64_of(b) ==> open_blob(b, key) == Some(content)
}

/// A stored text encrypts at most one content: this is what makes the
/// encrypt/decrypt round trip exact.  Together with the contracts of
/// `encrypt_data` and `decrypt_data` it says that decrypting an encryption
/// of `p` under the same key gives back exactly `p`.
pub proof fn lemma_stored_content_unique(
    stored: Seq<char>,
    key: Seq<u8>,
    c1: Seq<char>,
    c2: Seq<char>,
)
    requires
        stores_content(stored, key, c1),
        stores_content(stored, key, c2),
    ensures
        c1 == c2,
{
    let b = choose|b: Seq<u8>| stored == b64_of(b);
    assert(open_blob(b, key) == Some(c1));
    assert(open_blob(b, key) == Some(c2));
}

/// Seals a text payload into a raw blob under a 256-bit key, with a fresh
/// random nonce.  Fails only when the random source fails or the payload
/// exceeds the cipher's length bound.
fn seal_str(plaintext: &str, key: &[u8]) -> (r: Result<Vec<u8>, VaultError>)
    requires
        key@.len() == 32,
    ensures
        match r {
            Ok(b) => open_blob(b@, key@) == Some(plaintext@) && b@.len() == encode_utf8(
                plaintext@,
            ).len() + 28 && encode_utf8(plaintext@).len() <= 0x10_0000_0000,
            Err(e) => e == VaultError::CryptoFailure,
        },
{
    let mut nonce = match random_nonce() {
        Some(n) => n,
        None => { return Err(VaultError::CryptoFailure) },
    };
    let ghost noncev = nonce@;
    let pt = plaintext.as_bytes();
    let mut ct = match aead_encrypt(key, nonce.as_slice(), pt) {
        Some(c) => c,
        None => { return Err(VaultError::CryptoFailure) },
    };
    let ghost ctv = ct@;
    nonce.append(&mut ct);
    proof {
        assert(nonce@.take(12) =~= noncev);
        assert(nonce@.skip(12) =~= ctv);
        assert(decode_utf8(encode_utf8(plaintext@)) == plaintext@);
    }
    Ok(nonce)
}

/// Opens a raw blob under a 256-bit key, returning the sealed text.
fn open_str(blob: &[u8], key: &[u8]) -> (r: Result<String, VaultError>)
    requires
        key@.len() == 32,
    ensures
        match r {
            Ok(s) => open_blob(blob@, key@) == Some(s@),
            Err(e) => e == VaultError::CryptoFailure && open_blob(blob@, key@) is None,
        },
{
    if blob.len() < 12 {
        return Err(VaultError::CryptoFailure);
    }
    let (nonce, ct) = blob.split_at(12);
    proof {
        assert(nonce@ =~= blob@.take(12));
        assert(ct@ =~= blob@.skip(12));
    }
    let pt = match aead_decrypt(key, nonce, ct) {
        Some(p) => p,
        None => { return Err(VaultError::CryptoFailure) },
    };
    let ghost ptv = pt@;
    match bytes_to_string(pt) {
        Some(s) => {
            proof {
                assert(valid_utf8(ptv));
                assert(decode_utf8(ptv) == s@);
            }
            Ok(s)
        },
        None => Err(VaultError::CryptoFailure),
    }
}

/// Encrypts a text payload under a 256-bit key and returns it as base64
/// text, ready for a store that only takes text.  Each call draws a fresh
/// nonce, so two encryptions of the same payload differ, yet each of them
/// stores exactly `plaintext`, and the encoded blob is always the 12-byte
/// nonce, the payload's UTF-8 bytes and the 16-byte tag.  Fails only when
/// the random source fails or the payload exceeds the cipher's length
/// bound.
pub fn encrypt_data(plaintext: &str, key: &[u8]) -> (r: Result<String, VaultError>)
    requires
        key@.len() == 32,
    ensures
        match r {
            Ok(s) => stores_content(s@, key@, plaintext@) && (forall|b: Seq<u8>|
                s@ == b64_of(b) ==> b.len() == encode_utf8(plaintext@).len() + 28),
            Err(e) => e == VaultError::CryptoFailure,
        },
{
    let blob = match seal_str(plaintext, key) {
        Ok(b) => b,
        Err(e) => { return Err(e) },
    };
    let encoded = b64_encode(blob.as_slice());
    proof {
        assert(encoded@ == b64_of(blob@));
        assert forall|b: Seq<u8>| encoded@ == b64_of(b) implies b.len() == encode_utf8(
            plaintext@,
        ).len() + 28 by {
            assert(b == blob@);
        }
    }
    Ok(encoded)
}

/// Decrypts base64 text produced by `encrypt_data` under the same key.
/// Succeeds exactly when the text is an encryption of some content under
/// this key, and returns that content; every other input — wrong key,
/// corrupted or truncated text, tampering — fails the same way.
pub fn decrypt_data(encrypted_b64: &str, key: &[u8]) -> (r: Result<String, VaultError>)
    requires
        key@.len() == 32,
    ensures
        match r {
            Ok(s) => stores_content(encrypted_b64@, key@, s@),
            Err(e) => e == VaultError::CryptoFailure && !exists|c: Seq<char>|
                stores_content(encrypted_b64@, key@, c),
        },
{
    let blob = match b64_decode(encrypted_b64) {
        Some(b) => b,
        None => {
            proof {
                assert forall|c: Seq<char>| !stores_content(encrypted_b64@, key@, c) by {
                    if stores_content(encrypted_b64@, key@, c) {
                        let b = choose|b: Seq<u8>| encrypted_b64@ == b64_of(b);
                    }
                }
            }
            return Err(VaultError::CryptoFailure);
        },
    };
    match open_str(blob.as_slice(), key) {
        Ok(s) => {
            proof {
                assert forall|b: Seq<u8>| encrypted_b64@ == b64_of(b) implies open_blob(b, key@)
                    == Some(s@) by {
                    assert(b == blob@);
                }
            }
            Ok(s)
        },
        Err(e) => {
            proof {
                assert forall|c: Seq<char>| !stores_content(encrypted_b64@, key@, c) by {
                    if stores_content(encrypted_b64@, key@, c) {
                        assert(open_blob(blob@, key@) == Some(c));
                    }
                }
            }
            Err(e)
        },
    }
}

/// Encrypts a credential payload under the key derived from the account's
/// username, returning the raw blob: the 12-byte nonce, the payload's
/// UTF-8 bytes and the 16-byte tag.
pub fn encrypt_credentials(plaintext: &str, username: &str) -> (r: Result<Vec<u8>, VaultError>)
    ensures
        match r {
            Ok(b) => open_blob(b@, account_key(username@)) == Some(plaintext@) && b@.len()
                == encode_utf8(plaintext@).len() + 28,
            Err(e) => e == VaultError::CryptoFailure,
        },
{
    let key = match derive_encryption_key(username) {
        Ok(k) => k,
        Err(e) => { return Err(e) },
    };
    seal_str(plaintext, key.as_slice())
}

/// Decrypts a credential blob under the key derived from the account's
/// username.  Succeeds exactly when the blob opens under that key (and the
/// username is within the derivation's length cap), and returns the sealed
/// text.
pub fn decrypt_credentials(encrypted_data: &[u8], username: &str) -> (r: Result<
    String,
    VaultError,
>)
    ensures
        match r {
            Ok(s) => open_blob(encrypted_data@, account_key(username@)) == Some(s@),
            Err(e) => e == VaultError::CryptoFailure && (encode_utf8(username@).len()
                > MAX_IDENTIFIER_BYTES || open_blob(encrypted_data@, account_key(username@))
                is None),
        },
{
    let key = match derive_encryption_key(username) {
        Ok(k) => k,
        Err(e) => { return Err(e) },
    };
    open_str(encrypted_data, key.as_slice())
}

} // verus!
