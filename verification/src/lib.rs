//! An encrypted multi-account credential vault.
//!
//! The vault keeps a single authoritative account index — the known
//! accounts in display order plus the active selection — persisted as one
//! authenticated-encrypted record in a platform secret store, beside one
//! encrypted credential record per account.  Every symmetric key is derived
//! deterministically from a low-entropy identifier with a memory-hard hash
//! (a deliberate trade: no separate key management, at the cost of the
//! security resting on the hash's work factor behind the platform store's
//! own access control), so records written in one session decrypt in any
//! later one without a key ever being stored.  Store keys are themselves
//! derived hashes, so the store's key listing never shows an account name.

use vstd::prelude::*;

pub mod cipher;
pub mod codec;
pub mod keys;
pub mod menu_ids;
pub mod primitives;
pub mod records;
pub mod store;
pub mod text;
pub mod vault;

verus! {

/// The ways a vault operation can fail.
#[derive(Clone, Copy, PartialEq, Eq, Structural, Debug)]
pub enum VaultError {
    /// The operation referenced a username absent from the account index.
    NotFound,
    /// Key derivation or authenticated encryption failed.
    CryptoFailure,
    /// The platform secret store is missing or inaccessible.
    StoreUnavailable,
    /// A persisted record did not parse back into its expected shape.
    SerializationError,
}

impl VaultError {
    /// A short description of the failure, for logs and error surfaces.
    pub fn message(&self) -> (r: &'static str)
        ensures
            match *self {
                VaultError::NotFound => r@ == "account not found"@,
                VaultError::CryptoFailure => r@ == "key derivation or decryption failed"@,
                VaultError::StoreUnavailable => r@ == "the platform secret store is unavailable"@,
                VaultError::SerializationError => r@ == "a persisted record is malformed"@,
            },
    {
        match self {
            VaultError::NotFound => "account not found",
            VaultError::CryptoFailure => "key derivation or decryption failed",
            VaultError::StoreUnavailable => "the platform secret store is unavailable",
            VaultError::SerializationError => "a persisted record is malformed",
        }
    }
}

} // verus!
