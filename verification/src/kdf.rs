//! Password-based key derivation.
//!
//! A password and a 32-byte salt are turned into a 32-byte symmetric key by
//! Argon2id with fixed, generous cost parameters (64 MiB of memory, 3
//! passes, 4 lanes). The parameters are policy, not configuration, so every
//! container ever written can be opened with the same derivation.
//!
//! The digest is named by the uninterpreted function [`argon2id_of`]: the
//! contracts promise that the key is a function of the password and the salt
//! alone, which is what determinism and the save/load round trip rest on.

use vstd::prelude::*;
use vstd::slice::slice_to_vec;

use crate::error::SecureSshError;
use crate::random::random_bytes;
use crate::secure_bytes::SecureBytes;
use crate::SALT_LEN;
use crate::KEY_LEN;

verus! {

/// The Argon2id digest (64 MiB, 3 passes, 4 lanes, 32-byte output) of a
/// password and a salt. A function of its two arguments alone.
pub uninterp spec fn argon2id_of(password: Seq<u8>, salt: Seq<u8>) -> Seq<u8>;

/// The longest password the derivation accepts, a limit of the algorithm.
pub const MAX_PASSWORD_LEN: usize = 0xFFFF_FFFF;

/// Relies on argon2's `Argon2::hash_password_into` with Argon2id version
/// 0x13 and fixed parameters (65536 KiB, 3 iterations, 4 lanes, 32-byte
/// output): the digest depends on the password and salt alone, and with a
/// 32-byte salt and a password within the algorithm's length limit the
/// call cannot fail.
#[verifier::external_body]
fn argon2id_derive(password: &[u8], salt: &[u8]) -> (r: Vec<u8>)
    requires
        salt@.len() == SALT_LEN,
        password@.len() <= MAX_PASSWORD_LEN,
    ensures
        r@ == argon2id_of(password@, salt@),
        r@.len() == KEY_LEN,
{
    let params = argon2::Params::new(65536, 3, 4, Some(32))
        .expect("fixed parameters are valid");
    let argon = argon2::Argon2::new(argon2::Algorithm::Argon2id, argon2::Version::V0x13, params);
    let mut out = vec![0u8; 32];
    argon
        .hash_password_into(password, salt, &mut out)
        .expect("fixed parameters derive for any password within the length limit");
    out
}

/// A derived encryption key together with the salt it was derived from.
pub struct DerivedKey {
    /// The 32-byte key material.
    pub key: SecureBytes,
    /// The 32-byte salt.
    pub salt: Vec<u8>,
}

impl DerivedKey {
    /// Both halves have their fixed lengths.
    pub open spec fn wf(&self) -> bool {
        &&& self.key@.len() == KEY_LEN
        &&& self.salt@.len() == SALT_LEN
    }

    /// The key is exactly the derivation of `password` with this salt.
    pub open spec fn derived_from(&self, password: Seq<u8>) -> bool {
        self.key@ == argon2id_of(password, self.salt@)
    }

    /// Overwrite both halves with zeros.
    pub fn wipe(&mut self)
        ensures
            final(self).key@.len() == 0,
            final(self).salt@.len() == 0,
    {
        self.key.wipe();
        self.salt.clear();
    }
}

/// Derive an encryption key from a password. With no salt supplied, a fresh
/// random 32-byte salt is drawn; the derivation itself is deterministic in
/// the password and the salt.
pub fn derive_key(password: &[u8], salt: Option<&[u8]>) -> (r: Result<
    DerivedKey,
    SecureSshError,
>)
    requires
        salt matches Some(s) ==> s@.len() == SALT_LEN,
    ensures
        r is Ok <==> password@.len() <= MAX_PASSWORD_LEN,
        r matches Ok(k) ==> {
            &&& k.wf()
            &&& k.derived_from(password@)
            &&& (salt matches Some(s) ==> k.salt@ == s@)
        },
        r matches Err(e) ==> e is KeyGenerationFailed,
{
    if password.len() > MAX_PASSWORD_LEN {
        return Err(
            SecureSshError::KeyGenerationFailed(String::from_str("password too long")),
        );
    }
    let salt_bytes: Vec<u8> = match salt {
        Some(s) => slice_to_vec(s),
        None => random_bytes(SALT_LEN),
    };
    let key = argon2id_derive(password, salt_bytes.as_slice());
    Ok(DerivedKey { key: SecureBytes::new(key), salt: salt_bytes })
}

/// Derive a key using an existing salt, as when decrypting.
pub fn derive_key_with_salt(password: &[u8], salt: &[u8]) -> (r: Result<
    DerivedKey,
    SecureSshError,
>)
    requires
        salt@.len() == SALT_LEN,
    ensures
        r is Ok <==> password@.len() <= MAX_PASSWORD_LEN,
        r matches Ok(k) ==> k.wf() && k.derived_from(password@) && k.salt@ == salt@,
        r matches Err(e) ==> e is KeyGenerationFailed,
{
    derive_key(password, Some(salt))
}

/// Key derivation is a pure function of the password and the salt: any two
/// keys derived from the same pair are byte-identical.
pub proof fn lemma_derive_deterministic(password: Seq<u8>, salt: Seq<u8>, k1: Seq<u8>, k2: Seq<u8>)
    requires
        k1 == argon2id_of(password, salt),
        k2 == argon2id_of(password, salt),
    ensures
        k1 == k2,
{
}

/// The fewest bytes a new master password may have.
pub const MIN_PASSWORD_LEN: usize = 12;

/// Judge a new master password and its confirmation: too short is
/// rejected first, then a mismatch; only an agreeing pair of sufficient
/// length passes.
pub fn validate_new_password(password: &str, confirm: &str) -> (r: Result<(), SecureSshError>)
    ensures
        r is Ok <==> vstd::utf8::encode_utf8(password@).len() >= MIN_PASSWORD_LEN && password@
            == confirm@,
        r matches Err(e) ==> (e is PasswordTooShort <==> vstd::utf8::encode_utf8(
            password@,
        ).len() < MIN_PASSWORD_LEN),
        r matches Err(e) ==> (e is PasswordMismatch <==> vstd::utf8::encode_utf8(
            password@,
        ).len() >= MIN_PASSWORD_LEN),
{
    if password.as_bytes().len() < MIN_PASSWORD_LEN {
        return Err(SecureSshError::PasswordTooShort);
    }
    let p = String::from_str(password);
    let c = String::from_str(confirm);
    if !p.eq(&c) {
        return Err(SecureSshError::PasswordMismatch);
    }
    Ok(())
}

} // verus!
