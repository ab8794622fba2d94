//! Authenticated encryption of arbitrary payloads.
//!
//! ChaCha20-Poly1305 under a 32-byte key with a 12-byte nonce drawn fresh
//! for every encryption. The sealed bytes are named by the uninterpreted
//! function [`chacha_seal`]; decryption succeeds exactly on bytes that are
//! a seal under the same key and nonce, and then returns the payload that
//! was sealed. Every failure is the single undifferentiated
//! `DecryptionFailed`, so wrong keys, wrong nonces and tampering are
//! indistinguishable to a caller.

use vstd::prelude::*;

use crate::error::SecureSshError;
use crate::random::random_bytes;
use crate::secure_bytes::SecureBytes;
use crate::KEY_LEN;
use crate::NONCE_LEN;
use crate::TAG_LEN;

verus! {

/// The ChaCha20-Poly1305 sealing of `plaintext` under `key` and `nonce`:
/// the ciphertext with its 16-byte authentication tag appended. A function
/// of its three arguments alone.
pub uninterp spec fn chacha_seal(key: Seq<u8>, nonce: Seq<u8>, plaintext: Seq<u8>) -> Seq<u8>;

/// The longest payload a single sealing accepts; the cipher refuses more.
pub const MAX_PAYLOAD_LEN: usize = 0xFFFF_FFFF;

/// Relies on chacha20poly1305's `ChaCha20Poly1305::encrypt`: sealing is a
/// function of key, nonce and plaintext alone; the result is the ciphertext
/// with the 16-byte tag appended; the cipher accepts any plaintext within
/// the length limit.
#[verifier::external_body]
fn chacha_encrypt(key: &[u8], nonce: &[u8], plaintext: &[u8]) -> (r: Vec<u8>)
    requires
        key@.len() == KEY_LEN,
        nonce@.len() == NONCE_LEN,
        plaintext@.len() <= MAX_PAYLOAD_LEN,
    ensures
        r@ == chacha_seal(key@, nonce@, plaintext@),
        r@.len() == plaintext@.len() + TAG_LEN,
{
    let cipher = <chacha20poly1305::ChaCha20Poly1305 as chacha20poly1305::KeyInit>::new_from_slice(key)
        .expect("the key is 32 bytes");
    chacha20poly1305::aead::Aead::encrypt(
        &cipher,
        chacha20poly1305::Nonce::from_slice(nonce),
        plaintext,
    ).expect("sealing a payload within the length limit cannot fail")
}

/// Relies on chacha20poly1305's `ChaCha20Poly1305::decrypt`: it returns a
/// payload exactly when the bytes are a seal under this key and nonce, and
/// then returns the payload that was sealed; sealing and opening are
/// mutually inverse for a fixed key and nonce.
#[verifier::external_body]
fn chacha_decrypt(key: &[u8], nonce: &[u8], ciphertext: &[u8]) -> (r: Result<Vec<u8>, ()>)
    requires
        key@.len() == KEY_LEN,
        nonce@.len() == NONCE_LEN,
    ensures
        r is Ok ==> ciphertext@ == chacha_seal(key@, nonce@, r->Ok_0@),
        forall|p: Seq<u8>|
            p.len() <= MAX_PAYLOAD_LEN && ciphertext@ == chacha_seal(key@, nonce@, p)
                ==> r is Ok && r->Ok_0@ == p,
{
    let cipher = <chacha20poly1305::ChaCha20Poly1305 as chacha20poly1305::KeyInit>::new_from_slice(key)
        .expect("the key is 32 bytes");
    let opened = chacha20poly1305::aead::Aead::decrypt(
        &cipher,
        chacha20poly1305::Nonce::from_slice(nonce),
        ciphertext,
    );
    match opened {
        Ok(p) => Ok(p),
        Err(_) => Err(()),
    }
}

/// Encrypt a payload under a 32-byte key with a fresh random nonce.
/// Returns the nonce and the ciphertext with its tag appended.
///
/// The round trip is owed by [`decrypt`]: opening the returned ciphertext
/// with the same key and nonce gives back exactly `plaintext`.
pub fn encrypt(key: &[u8], plaintext: &[u8]) -> (r: Result<
    (Vec<u8>, Vec<u8>),
    SecureSshError,
>)
    ensures
        r is Ok <==> key@.len() == KEY_LEN && plaintext@.len() <= MAX_PAYLOAD_LEN,
        r matches Ok((nonce, ct)) ==> {
            &&& nonce@.len() == NONCE_LEN
            &&& ct@ == chacha_seal(key@, nonce@, plaintext@)
            &&& ct@.len() == plaintext@.len() + TAG_LEN
        },
        r matches Err(e) ==> e is EncryptionFailed,
{
    if key.len() != KEY_LEN {
        return Err(SecureSshError::EncryptionFailed(String::from_str("invalid key length")));
    }
    if plaintext.len() > MAX_PAYLOAD_LEN {
        return Err(SecureSshError::EncryptionFailed(String::from_str("payload too long")));
    }
    let nonce = random_bytes(NONCE_LEN);
    let ciphertext = chacha_encrypt(key, nonce.as_slice(), plaintext);
    Ok((nonce, ciphertext))
}

/// Decrypt a payload sealed under a 32-byte key and 12-byte nonce.
///
/// Succeeds exactly on ciphertexts that are a seal under this key and
/// nonce, and then returns the payload that was sealed: in particular,
/// `decrypt` of `encrypt(key, p)` gives back `p`. Everything else fails
/// with the single undifferentiated `DecryptionFailed`.
pub fn decrypt(key: &[u8], nonce: &[u8], ciphertext: &[u8]) -> (r: Result<
    SecureBytes,
    SecureSshError,
>)
    ensures
        r matches Ok(p) ==> {
            &&& key@.len() == KEY_LEN
            &&& nonce@.len() == NONCE_LEN
            &&& ciphertext@ == chacha_seal(key@, nonce@, p@)
        },
        key@.len() == KEY_LEN && nonce@.len() == NONCE_LEN ==> forall|p: Seq<u8>|
            p.len() <= MAX_PAYLOAD_LEN && ciphertext@ == chacha_seal(key@, nonce@, p)
                ==> r is Ok && r->Ok_0@ == p,
        r matches Err(e) ==> e is DecryptionFailed,
{
    if key.len() != KEY_LEN {
        return Err(SecureSshError::DecryptionFailed);
    }
    if nonce.len() != NONCE_LEN {
        return Err(SecureSshError::DecryptionFailed);
    }
    match chacha_decrypt(key, nonce, ciphertext) {
        Ok(p) => Ok(SecureBytes::new(p)),
        Err(_) => Err(SecureSshError::DecryptionFailed),
    }
}

} // verus!
