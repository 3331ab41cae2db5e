//! Cocoon: a verified password-vault core.
//!
//! The crate protects a small set of credential entries behind a
//! master-password-derived key.  It provides key derivation, authenticated
//! encryption of the serialized entry collection, the on-disk container
//! format, a session state machine with idle timeout and failed-attempt
//! lockout, entry repository operations, password-strength scoring and
//! secure password generation.  File and window plumbing live outside the
//! crate; every routine here is verified against its contract.

pub mod codec;
pub mod container;
pub mod error;
pub mod vault;
pub mod wire;
pub mod generate;
pub mod kdf;
pub mod payload;
pub mod session;
pub mod store;
pub mod strength;
pub mod text;
