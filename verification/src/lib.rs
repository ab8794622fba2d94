//! A password-protected vault for an SSH identity, together with the logic
//! that drives a cancellable interactive session over it.
//!
//! The vault side derives a symmetric key from a password, seals arbitrary
//! payloads in a versioned authenticated container, and manages the Ed25519
//! identity whose public half is exported in OpenSSH form. The session side
//! is a pure state machine stepped by the surrounding event loop, plus the
//! presence probes that feed its cancellation signal.

use vstd::prelude::*;

pub mod aead;
pub mod codec;
pub mod encoding;
pub mod error;
pub mod kdf;
pub mod keys;
pub mod random;
pub mod secure_bytes;
pub mod server;
pub mod session;
pub mod storage;
pub mod vault;
pub mod watchdog;

verus! {

/// Version written into every container header; containers carrying any
/// other value are rejected before decryption.
pub const FORMAT_VERSION: u32 = 1;

/// Salt length in bytes for key derivation.
pub const SALT_LEN: usize = 32;

/// Nonce length in bytes for the authenticated cipher.
pub const NONCE_LEN: usize = 12;

/// Authentication tag length in bytes appended to every ciphertext.
pub const TAG_LEN: usize = 16;

/// Derived key length in bytes.
pub const KEY_LEN: usize = 32;

/// Container header length: version word, salt, then nonce.
pub const HEADER_LEN: usize = 48;

/// The header length is exactly the version word followed by salt and nonce.
pub proof fn lemma_header_layout()
    ensures
        HEADER_LEN == 4 + SALT_LEN + NONCE_LEN,
{
}

} // verus!
