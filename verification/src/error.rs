//! Error taxonomy of the vault core.
//!
//! Every fallible operation returns one of these kinds; no operation on
//! user-supplied data panics.

use vstd::prelude::*;

verus! {

/// Why an authentication-gated request was refused.
#[derive(Clone, Copy, Debug, PartialEq, Eq, Structural)]
pub enum AuthenticationError {
    /// No session is unlocked, or the session expired from idleness.
    NotAuthenticated,
    /// The supplied master password does not match the stored verifier.
    InvalidMasterPassword,
    /// Too many failed attempts; locked until the carried instant.
    Locked(u64),
}

/// Failures of the cryptographic layer.
#[derive(Clone, Copy, Debug, PartialEq, Eq, Structural)]
pub enum CryptoError {
    /// The password-hashing primitive rejected its inputs.
    KeyDerivationFailed,
    /// Authenticated encryption failed.
    EncryptionFailed,
    /// Authentication of the ciphertext failed: wrong key or tampering.
    DecryptionFailed,
    /// A stored field was not valid base64 or not valid UTF-8.
    DecodeFailed,
}

/// Failures of persistence and of the serialized schemas.
#[derive(Clone, Copy, Debug, PartialEq, Eq, Structural)]
pub enum StorageError {
    /// The requested record does not exist.
    NotFound,
    /// A serialized payload or container did not match its schema.
    Malformed,
}

/// Rejected caller input.
#[derive(Clone, Copy, Debug, PartialEq, Eq, Structural)]
pub enum ValidationError {
    /// A master password shorter than the required minimum.
    WeakMasterPassword,
    /// No entry carries the requested id.
    EntryNotFound,
    /// Generator length outside the accepted range.
    InvalidLength,
    /// Generator invoked with no character classes selected.
    NoCharacterClasses,
}

/// Any failure the vault core can report.
#[derive(Clone, Copy, Debug, PartialEq, Eq, Structural)]
pub enum VaultError {
    Auth(AuthenticationError),
    Crypto(CryptoError),
    Storage(StorageError),
    Validation(ValidationError),
}

} // verus!
