//! The Ed25519 identity: a 32-byte private seed, the public key derived
//! deterministically from it, and the OpenSSH export of the public half.
//!
//! The derivation of the public key is named by the uninterpreted function
//! [`ed25519_public_of`]; reconstructing a keypair from a stored seed gives
//! back exactly the public key that was generated with it. The export is
//! the standard wire blob, base64-encoded:
//! `"ssh-ed25519 " + base64(blob) + " " + comment` with
//! `blob = len("ssh-ed25519") || "ssh-ed25519" || len(key) || key` and
//! 4-byte big-endian lengths.

use base64::Engine;
use vstd::prelude::*;
use vstd::utf8::encode_utf8;

use crate::encoding::{be32_bytes, u32_to_be_bytes};
use crate::error::SecureSshError;
use crate::random::random_bytes;
use crate::secure_bytes::SecureBytes;

verus! {

/// The Ed25519 public key of a 32-byte private seed. A function of the
/// seed alone.
pub uninterp spec fn ed25519_public_of(seed: Seq<u8>) -> Seq<u8>;

/// The standard base64 text (with padding) of a byte sequence. A function
/// of the bytes alone.
pub uninterp spec fn base64_of(bytes: Seq<u8>) -> Seq<char>;

/// Relies on ed25519_dalek's `SigningKey::from_bytes` and
/// `VerifyingKey::to_bytes`: any 32-byte seed is a valid signing key, and
/// its 32-byte verifying key is derived from the seed alone.
#[verifier::external_body]
fn ed25519_public_key(seed: &[u8]) -> (r: Vec<u8>)
    requires
        seed@.len() == 32,
    ensures
        r@ == ed25519_public_of(seed@),
        r@.len() == 32,
{
    let mut bytes = [0u8; 32];
    bytes.copy_from_slice(seed);
    let signing = ed25519_dalek::SigningKey::from_bytes(&bytes);
    let verifying = signing.verifying_key();
    zeroize::Zeroize::zeroize(&mut bytes);
    verifying.to_bytes().to_vec()
}

/// Relies on base64's standard-alphabet engine `encode`: the text is a
/// function of the input bytes alone.
#[verifier::external_body]
fn base64_encode(b: &[u8]) -> (r: String)
    ensures
        r@ == base64_of(b@),
{
    base64::engine::general_purpose::STANDARD.encode(b)
}

/// The wire blob of an Ed25519 public key: the algorithm name and the key,
/// each preceded by its 4-byte big-endian length.
pub open spec fn openssh_blob_of(public_key: Seq<u8>) -> Seq<u8> {
    be32_bytes(11) + encode_utf8("ssh-ed25519"@) + be32_bytes(32) + public_key
}

/// The full OpenSSH public-key line for an Ed25519 key with a comment.
pub open spec fn openssh_line_of(public_key: Seq<u8>, comment: Seq<char>) -> Seq<char> {
    "ssh-ed25519 "@ + base64_of(openssh_blob_of(public_key)) + " "@ + comment
}

/// An Ed25519 keypair; the private half is kept in wipeable memory.
pub struct KeyPair {
    private_key: SecureBytes,
    public_key: Vec<u8>,
}

impl KeyPair {
    /// The private seed.
    pub closed spec fn private_view(&self) -> Seq<u8> {
        self.private_key@
    }

    /// The public key.
    pub closed spec fn public_view(&self) -> Seq<u8> {
        self.public_key@
    }

    /// Both halves are 32 bytes and the public half is the one derived
    /// from the private half.
    pub open spec fn wf(&self) -> bool {
        &&& self.private_view().len() == 32
        &&& self.public_view() == ed25519_public_of(self.private_view())
        &&& self.public_view().len() == 32
    }

    /// Generate a fresh keypair from a random 32-byte seed.
    pub fn generate() -> (r: Result<Self, SecureSshError>)
        ensures
            r is Ok,
            r matches Ok(kp) ==> kp.wf(),
    {
        let seed = random_bytes(32);
        Self::from_private_key(SecureBytes::new(seed))
    }

    /// Reconstruct the keypair whose private half is the given 32-byte
    /// seed; the public half is derived deterministically, so this gives
    /// back exactly the keypair the seed was taken from. Any other input
    /// length is rejected as malformed key material.
    pub fn from_private_key(private_key: SecureBytes) -> (r: Result<Self, SecureSshError>)
        ensures
            r is Ok <==> private_key@.len() == 32,
            r matches Ok(kp) ==> kp.wf() && kp.private_view() == private_key@,
            r matches Err(e) ==> e is KeyGenerationFailed,
    {
        if private_key.len() != 32 {
            return Err(
                SecureSshError::KeyGenerationFailed(
                    String::from_str("invalid private key length"),
                ),
            );
        }
        let public_key = ed25519_public_key(private_key.as_slice());
        Ok(KeyPair { private_key, public_key })
    }

    /// The private seed, for encryption and storage.
    pub fn private_key_bytes(&self) -> (r: &[u8])
        ensures
            r@ == self.private_view(),
    {
        self.private_key.as_slice()
    }

    /// The public key bytes.
    pub fn public_key_bytes(&self) -> (r: &[u8])
        ensures
            r@ == self.public_view(),
    {
        self.public_key.as_slice()
    }

    /// The public key as an OpenSSH `authorized_keys` line, reproduced
    /// byte for byte: `"ssh-ed25519 <base64-of-wire-blob> <comment>"`.
    pub fn public_key_openssh(&self, comment: &str) -> (r: String)
        requires
            self.wf(),
        ensures
            r@ == openssh_line_of(self.public_view(), comment@),
    {
        let tag = "ssh-ed25519";
        let mut blob = u32_to_be_bytes(11);
        blob.extend_from_slice(tag.as_bytes());
        let mut len_word = u32_to_be_bytes(32);
        blob.append(&mut len_word);
        blob.extend_from_slice(self.public_key.as_slice());
        proof {
            assert(blob@ =~= openssh_blob_of(self.public_view()));
        }
        let encoded = base64_encode(blob.as_slice());
        let mut line = String::from_str("ssh-ed25519 ");
        line.append(encoded.as_str());
        line.append(" ");
        line.append(comment);
        proof {
            assert(line@ =~= openssh_line_of(self.public_view(), comment@));
        }
        line
    }

    /// Consume the keypair and hand out the private seed.
    pub fn into_private_key(self) -> (r: SecureBytes)
        ensures
            r@ == self.private_view(),
    {
        self.private_key
    }

    /// Overwrite both halves with zeros.
    pub fn wipe(&mut self)
        ensures
            final(self).private_view().len() == 0,
            final(self).public_view().len() == 0,
    {
        self.private_key.wipe();
        self.public_key.clear();
    }
}

/// Generate a fresh Ed25519 keypair.
pub fn generate_keypair() -> (r: Result<KeyPair, SecureSshError>)
    ensures
        r is Ok,
        r matches Ok(kp) ==> kp.wf(),
{
    KeyPair::generate()
}

} // verus!
