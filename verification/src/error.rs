//! Error taxonomy of the library.
//!
//! Decryption failures are deliberately undifferentiated: a wrong password
//! and a tampered container both surface as `DecryptionFailed`, so that the
//! caller learns nothing about which one happened.

use vstd::prelude::*;

verus! {

/// Every failure the library can report.
#[derive(Debug, Clone, PartialEq, Eq)]
pub enum SecureSshError {
    /// No identity container exists yet.
    NotInitialized,
    /// An identity container already exists.
    AlreadyInitialized,
    /// The supplied password was rejected.
    InvalidPassword,
    /// A new password was shorter than the minimum length.
    PasswordTooShort,
    /// A new password and its confirmation differ.
    PasswordMismatch,
    /// A container's version word differs from the supported format
    /// version; noticed before any decryption is attempted.
    UnsupportedVersion(u32),
    /// Authentication of a container failed: wrong password or corrupted
    /// data, intentionally indistinguishable.
    DecryptionFailed,
    /// Encryption could not be performed.
    EncryptionFailed(String),
    /// No server with the given name exists.
    ServerNotFound(String),
    /// A server with the given name already exists.
    ServerAlreadyExists(String),
    /// The server list is empty.
    NoServersConfigured,
    /// The transport could not establish or keep the connection.
    SshConnectionFailed(String),
    /// The remote side rejected the key.
    SshAuthFailed,
    /// The presence signal went away; a distinguished termination reason,
    /// not a fault.
    UsbRemoved,
    /// The operator cancelled the operation.
    Cancelled,
    /// A container or configuration value is malformed.
    InvalidConfig(String),
    /// Key material could not be produced or reconstructed.
    KeyGenerationFailed(String),
    /// An input/output failure, carried as text.
    Io(String),
    /// A serialization failure, carried as text.
    Json(String),
    /// Any other failure, carried as text.
    Other(String),
}

} // verus!
