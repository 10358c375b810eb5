//! Deterministic key derivation.
//!
//! Symmetric keys are derived from low-entropy identifiers with Argon2id.
//! The salt is fixed and derived from the identifier itself (its first 16
//! bytes, zero-padded or truncated), so the same identifier always yields
//! the same key and no salt has to be persisted.  Two domains exist: the
//! master key for the account index comes from a fixed application
//! identifier, each account's key from that account's username.

use vstd::prelude::*;
use vstd::utf8::{encode_utf8, is_ascii_chars_encode_utf8};
use crate::VaultError;
use crate::primitives::{argon2_digest, argon2_digest32, b64_of};

verus! {

/// The largest password length the hashing function accepts.
pub const MAX_IDENTIFIER_BYTES: usize = 0xFFFF_FFFF;

/// The fixed application identifier that the master key is derived from.
pub open spec fn master_identifier() -> Seq<char> {
    "com.twitter.xmac.master.key"@
}

/// The salt derived from an identifier: its first 16 bytes, zero-padded on
/// the right when the identifier is shorter than 16 bytes.
pub open spec fn derived_salt(id: Seq<u8>) -> Seq<u8> {
    if id.len() >= 16 {
        id.take(16)
    } else {
        id + Seq::new((16 - id.len()) as nat, |i: int| 0u8)
    }
}

/// The 256-bit key derived from an identifier: its Argon2id digest under the
/// identifier's own derived salt.
pub open spec fn derived_key(id: Seq<u8>) -> Seq<u8> {
    argon2_digest(id, derived_salt(id))
}

/// The master key that encrypts the account index.
pub open spec fn master_key() -> Seq<u8> {
    derived_key(encode_utf8(master_identifier()))
}

/// The key that encrypts one account's credential record.
pub open spec fn account_key(username: Seq<char>) -> Seq<u8> {
    derived_key(encode_utf8(username))
}

/// The deterministic store key under which a logical name is filed: the
/// base64 text of the name's derived 256-bit key, so the store's key listing
/// never shows the logical name itself.
pub open spec fn spec_hash_key(name: Seq<char>) -> Seq<char> {
    b64_of(derived_key(encode_utf8(name)))
}

/// Builds the derived salt of an identifier.
fn build_salt(id: &[u8]) -> (r: Vec<u8>)
    ensures
        r@ == derived_salt(id@),
        r@.len() == 16,
{
    let mut salt: Vec<u8> = Vec::new();
    let mut i: usize = 0;
    while i < 16 && i < id.len()
        invariant
            i <= 16,
            salt@.len() == i,
            i <= id@.len(),
            salt@ == id@.take(i as int),
        decreases 16 - i,
    {
        salt.push(id[i]);
        i += 1;
        proof {
            assert(salt@ =~= id@.take(i as int));
        }
    }
    while i < 16
        invariant
            i <= 16,
            salt@.len() == i,
            id@.len() >= 16 ==> i == 16 && salt@ == id@.take(i as int),
            id@.len() < 16 ==> salt@ == id@ + Seq::new((i - id@.len()) as nat, |k: int| 0u8),
        decreases 16 - i,
    {
        salt.push(0u8);
        i += 1;
        proof {
            if id@.len() < 16 {
                assert(salt@ =~= id@ + Seq::new((i - id@.len()) as nat, |k: int| 0u8));
            }
        }
    }
    proof {
        if id@.len() >= 16 {
            assert(salt@ =~= derived_salt(id@));
        } else {
            assert(salt@ =~= derived_salt(id@));
        }
    }
    salt
}

/// Derives the 256-bit key for an identifier given as raw bytes.  Fails only
/// when the identifier exceeds the hashing function's length cap.
pub fn derive_key_bytes(id: &[u8]) -> (r: Result<Vec<u8>, VaultError>)
    ensures
        match r {
            Ok(k) => id@.len() <= MAX_IDENTIFIER_BYTES && k@ == derived_key(id@) && k@.len() == 32,
            Err(e) => e == VaultError::CryptoFailure && id@.len() > MAX_IDENTIFIER_BYTES,
        },
{
    if id.len() > MAX_IDENTIFIER_BYTES {
        return Err(VaultError::CryptoFailure);
    }
    let salt = build_salt(id);
    Ok(argon2_digest32(id, salt.as_slice()))
}

/// The fixed application identifier is short ASCII text, so its UTF-8 form
/// is as long as its character count.
proof fn lemma_master_identifier_bytes()
    ensures
        encode_utf8(master_identifier()).len() == 27,
{
    reveal_strlit("com.twitter.xmac.master.key");
    assert(vstd::utf8::is_ascii_chars(master_identifier())) by {
        assert(master_identifier().len() == 27);
        assert forall|i: int| 0 <= i < master_identifier().len() implies '\0'
            <= #[trigger] master_identifier()[i] <= '\u{7f}' by {
            assert(master_identifier().len() == 27);
        };
    };
    is_ascii_chars_encode_utf8(master_identifier());
}

/// Derives the master key for the account index.  The same key comes back on
/// every call, in every session.
pub fn derive_master_key() -> (r: Vec<u8>)
    ensures
        r@ == master_key(),
        r@.len() == 32,
{
    proof {
        lemma_master_identifier_bytes();
        assert("com.twitter.xmac.master.key"@ == master_identifier());
    }
    let id = "com.twitter.xmac.master.key".as_bytes();
    match derive_key_bytes(id) {
        Ok(k) => k,
        Err(_) => {
            // The identifier is 27 bytes, far under the length cap.
            proof {
                assert(false);
            }
            Vec::new()
        },
    }
}

/// Derives the per-account encryption key from the account's username.  The
/// derivation is deterministic: equal usernames give equal keys across
/// calls and sessions.  It fails only when the username's UTF-8 form
/// exceeds the hashing function's length cap.
pub fn derive_encryption_key(username: &str) -> (r: Result<Vec<u8>, VaultError>)
    ensures
        match r {
            Ok(k) => encode_utf8(username@).len() <= MAX_IDENTIFIER_BYTES && k@ == account_key(
                username@,
            ) && k@.len() == 32,
            Err(e) => e == VaultError::CryptoFailure && encode_utf8(username@).len()
                > MAX_IDENTIFIER_BYTES,
        },
{
    derive_key_bytes(username.as_bytes())
}

/// Files a logical name under its deterministic hashed store key.  An
/// over-long name (beyond the hashing function's cap) yields the empty
/// string.
pub fn hash_key(name: &str) -> (r: String)
    ensures
        encode_utf8(name@).len() <= MAX_IDENTIFIER_BYTES ==> r@ == spec_hash_key(name@),
        encode_utf8(name@).len() > MAX_IDENTIFIER_BYTES ==> r@ == Seq::<char>::empty(),
{
    match derive_key_bytes(name.as_bytes()) {
        Ok(k) => crate::primitives::b64_encode(k.as_slice()),
        Err(_) => String::new(),
    }
}

} // verus!
