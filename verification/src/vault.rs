//! The versioned encrypted container: the one on-disk format both the
//! identity blob and the server-list blob use.
//!
//! Layout, byte for byte:
//!
//! ```text
//! offset 0  : version           (4 bytes, big-endian)
//! offset 4  : salt              (32 bytes)
//! offset 36 : nonce             (12 bytes)
//! offset 48 : ciphertext + tag  (remaining bytes; the last 16 are the tag)
//! ```
//!
//! A container whose version word differs from [`crate::FORMAT_VERSION`] is
//! rejected before any key derivation or decryption is attempted. A
//! password error and a corruption error are indistinguishable to the
//! caller: both are `DecryptionFailed`.

use vstd::prelude::*;

use crate::aead::{chacha_seal, decrypt, encrypt, MAX_PAYLOAD_LEN};
use crate::encoding::{be32_bytes, be32_value, lemma_be32_roundtrip, u32_from_be_bytes, u32_to_be_bytes};
use crate::error::SecureSshError;
use crate::kdf::{argon2id_of, derive_key_with_salt, DerivedKey, MAX_PASSWORD_LEN};
use crate::secure_bytes::SecureBytes;
use crate::FORMAT_VERSION;
use crate::HEADER_LEN;
use crate::NONCE_LEN;
use crate::SALT_LEN;
use crate::TAG_LEN;

verus! {

/// The bytes of a container with the given header fields and ciphertext.
pub open spec fn container_bytes(version: u32, salt: Seq<u8>, nonce: Seq<u8>, ct: Seq<u8>) -> Seq<
    u8,
> {
    be32_bytes(version) + salt + nonce + ct
}

/// The container produced by sealing `payload` with the given nonce under
/// the key derived from `password` and `key_salt`, with `embedded_salt`
/// written into the header. The two salts coincide for containers this
/// library writes; they are distinguished so that opening with a
/// caller-supplied salt can be stated exactly.
pub open spec fn is_sealed(
    data: Seq<u8>,
    password: Seq<u8>,
    key_salt: Seq<u8>,
    embedded_salt: Seq<u8>,
    nonce: Seq<u8>,
    payload: Seq<u8>,
) -> bool {
    &&& embedded_salt.len() == SALT_LEN
    &&& nonce.len() == NONCE_LEN
    &&& payload.len() <= MAX_PAYLOAD_LEN
    &&& password.len() <= MAX_PASSWORD_LEN
    &&& data.len() == HEADER_LEN + TAG_LEN + payload.len()
    &&& data == container_bytes(
        FORMAT_VERSION,
        embedded_salt,
        nonce,
        chacha_seal(argon2id_of(password, key_salt), nonce, payload),
    )
}

/// The container produced by sealing `payload` under the key derived from
/// `password` and `salt`, with that same salt embedded: what
/// [`seal_container`] writes.
pub open spec fn is_sealed_with(
    data: Seq<u8>,
    password: Seq<u8>,
    salt: Seq<u8>,
    nonce: Seq<u8>,
    payload: Seq<u8>,
) -> bool {
    is_sealed(data, password, salt, salt, nonce, payload)
}

/// A parsed container: the transient in-memory form of the on-disk bytes.
pub struct VaultContainer {
    /// The format version the container was written with.
    pub version: u32,
    /// The salt the key was derived with.
    pub salt: Vec<u8>,
    /// The nonce the payload was sealed with.
    pub nonce: Vec<u8>,
    /// The sealed payload, authentication tag included.
    pub ciphertext: Vec<u8>,
}

impl VaultContainer {
    /// Field lengths match the fixed layout.
    pub open spec fn wf(&self) -> bool {
        &&& self.salt@.len() == SALT_LEN
        &&& self.nonce@.len() == NONCE_LEN
        &&& self.ciphertext@.len() >= TAG_LEN
    }
}

/// Serialize a container into its on-disk byte layout.
pub fn encode_container(c: &VaultContainer) -> (r: Vec<u8>)
    requires
        c.wf(),
    ensures
        r@ == container_bytes(c.version, c.salt@, c.nonce@, c.ciphertext@),
        r@.len() == HEADER_LEN + c.ciphertext@.len(),
{
    let mut r = u32_to_be_bytes(c.version);
    r.extend_from_slice(c.salt.as_slice());
    r.extend_from_slice(c.nonce.as_slice());
    r.extend_from_slice(c.ciphertext.as_slice());
    proof {
        assert(r@ =~= container_bytes(c.version, c.salt@, c.nonce@, c.ciphertext@));
    }
    r
}

/// Parse on-disk bytes into a container.
///
/// Succeeds exactly on inputs long enough to hold the header and a tag
/// whose version word is the supported one; a version mismatch is reported
/// as `UnsupportedVersion` before anything else is looked at, and a short
/// input as `InvalidConfig`.
pub fn parse_container(data: &[u8]) -> (r: Result<VaultContainer, SecureSshError>)
    ensures
        r is Ok <==> data@.len() >= HEADER_LEN + TAG_LEN && be32_value(
            data@.subrange(0, 4),
        ) == FORMAT_VERSION,
        r matches Ok(c) ==> {
            &&& c.wf()
            &&& c.version == FORMAT_VERSION
            &&& c.salt@ == data@.subrange(4, 4 + SALT_LEN as int)
            &&& c.nonce@ == data@.subrange(4 + SALT_LEN as int, HEADER_LEN as int)
            &&& c.ciphertext@ == data@.subrange(HEADER_LEN as int, data@.len() as int)
            &&& data@ == container_bytes(c.version, c.salt@, c.nonce@, c.ciphertext@)
        },
        r matches Err(e) ==> (e is InvalidConfig <==> data@.len() < HEADER_LEN + TAG_LEN),
        r matches Err(e) ==> (e is UnsupportedVersion <==> data@.len() >= HEADER_LEN + TAG_LEN),
{
    if data.len() < HEADER_LEN + TAG_LEN {
        return Err(SecureSshError::InvalidConfig(String::from_str("container is truncated")));
    }
    let version = u32_from_be_bytes(&data[0..4]);
    if version != FORMAT_VERSION {
        return Err(SecureSshError::UnsupportedVersion(version));
    }
    let salt = vstd::slice::slice_to_vec(&data[4..4 + SALT_LEN]);
    let nonce = vstd::slice::slice_to_vec(&data[4 + SALT_LEN..HEADER_LEN]);
    let ciphertext = vstd::slice::slice_to_vec(&data[HEADER_LEN..data.len()]);
    let c = VaultContainer { version, salt, nonce, ciphertext };
    proof {
        lemma_be32_roundtrip(c.version);
        assert(data@ =~= container_bytes(c.version, c.salt@, c.nonce@, c.ciphertext@));
    }
    Ok(c)
}

/// Parsing inverts encoding: the fields of a container are recovered
/// exactly from its byte layout.
pub proof fn lemma_container_roundtrip(version: u32, salt: Seq<u8>, nonce: Seq<u8>, ct: Seq<u8>)
    requires
        salt.len() == SALT_LEN,
        nonce.len() == NONCE_LEN,
    ensures
        container_bytes(version, salt, nonce, ct).subrange(0, 4) == be32_bytes(version),
        container_bytes(version, salt, nonce, ct).subrange(4, 4 + SALT_LEN as int) == salt,
        container_bytes(version, salt, nonce, ct).subrange(
            4 + SALT_LEN as int,
            HEADER_LEN as int,
        ) == nonce,
        container_bytes(version, salt, nonce, ct).subrange(
            HEADER_LEN as int,
            container_bytes(version, salt, nonce, ct).len() as int,
        ) == ct,
        container_bytes(version, salt, nonce, ct).len() == HEADER_LEN + ct.len(),
{
    let b = container_bytes(version, salt, nonce, ct);
    assert(b.subrange(0, 4) =~= be32_bytes(version));
    assert(b.subrange(4, 4 + SALT_LEN as int) =~= salt);
    assert(b.subrange(4 + SALT_LEN as int, HEADER_LEN as int) =~= nonce);
    assert(b.subrange(HEADER_LEN as int, b.len() as int) =~= ct);
}

/// A sealed container parses successfully and its fields are recovered.
proof fn lemma_sealed_parses(
    data: Seq<u8>,
    password: Seq<u8>,
    key_salt: Seq<u8>,
    embedded_salt: Seq<u8>,
    nonce: Seq<u8>,
    payload: Seq<u8>,
)
    requires
        is_sealed(data, password, key_salt, embedded_salt, nonce, payload),
    ensures
        data.len() >= HEADER_LEN + TAG_LEN,
        be32_value(data.subrange(0, 4)) == FORMAT_VERSION,
        data.subrange(4, 4 + SALT_LEN as int) == embedded_salt,
        data.subrange(4 + SALT_LEN as int, HEADER_LEN as int) == nonce,
        data.subrange(HEADER_LEN as int, data.len() as int) == chacha_seal(
            argon2id_of(password, key_salt),
            nonce,
            payload,
        ),
{
    lemma_container_roundtrip(
        FORMAT_VERSION,
        embedded_salt,
        nonce,
        chacha_seal(argon2id_of(password, key_salt), nonce, payload),
    );
    lemma_be32_roundtrip(FORMAT_VERSION);
}

/// Seal a payload under an already-derived key into container bytes.
///
/// The nonce is drawn fresh; the result is the container layout with the
/// key's salt embedded, ready to be written to disk.
pub fn seal_container(payload: &[u8], dk: &DerivedKey) -> (r: Result<Vec<u8>, SecureSshError>)
    requires
        dk.wf(),
    ensures
        r is Ok <==> payload@.len() <= MAX_PAYLOAD_LEN,
        r matches Ok(bytes) ==> exists|nonce: Seq<u8>|
            nonce.len() == NONCE_LEN && bytes@ == container_bytes(
                FORMAT_VERSION,
                dk.salt@,
                nonce,
                chacha_seal(dk.key@, nonce, payload@),
            ) && bytes@.len() == HEADER_LEN + TAG_LEN + payload@.len(),
        r matches Err(e) ==> e is EncryptionFailed,
{
    let (nonce, ciphertext) = match encrypt(dk.key.as_slice(), payload) {
        Ok(p) => p,
        Err(e) => {
            return Err(e);
        },
    };
    let ghost n = nonce@;
    let c = VaultContainer { version: FORMAT_VERSION, salt: dk.salt.clone(), nonce, ciphertext };
    let bytes = encode_container(&c);
    proof {
        assert(n.len() == NONCE_LEN && bytes@ == container_bytes(
            FORMAT_VERSION,
            dk.salt@,
            n,
            chacha_seal(dk.key@, n, payload@),
        ) && bytes@.len() == HEADER_LEN + TAG_LEN + payload@.len());
    }
    Ok(bytes)
}

/// Sealing produces exactly what [`open_container`] recognizes: a
/// container sealed under a password with matching key and embedded salt.
pub proof fn lemma_seal_then_open(
    bytes: Seq<u8>,
    password: Seq<u8>,
    salt: Seq<u8>,
    nonce: Seq<u8>,
    payload: Seq<u8>,
)
    requires
        salt.len() == SALT_LEN,
        nonce.len() == NONCE_LEN,
        payload.len() <= MAX_PAYLOAD_LEN,
        password.len() <= MAX_PASSWORD_LEN,
        bytes.len() == HEADER_LEN + TAG_LEN + payload.len(),
        bytes == container_bytes(
            FORMAT_VERSION,
            salt,
            nonce,
            chacha_seal(argon2id_of(password, salt), nonce, payload),
        ),
    ensures
        is_sealed_with(bytes, password, salt, nonce, payload),
{
}

/// Open container bytes with a password, deriving the key from the salt
/// embedded in the container itself. Returns the payload and that salt.
///
/// The save/load round trip is owed here: for any container that is the
/// seal of some payload under the key derived from this password and the
/// embedded salt, the result is `Ok` and holds exactly that payload.
/// Everything else fails: truncation as `InvalidConfig`, a version
/// mismatch as `UnsupportedVersion` (rejected before any decryption
/// attempt), and an authentication failure as `DecryptionFailed`, whether
/// the password is wrong or the bytes were tampered with.
pub fn open_container(data: &[u8], password: &[u8]) -> (r: Result<
    (SecureBytes, Vec<u8>),
    SecureSshError,
>)
    ensures
        forall|salt: Seq<u8>, nonce: Seq<u8>, payload: Seq<u8>|
            is_sealed_with(data@, password@, salt, nonce, payload) ==> r is Ok && r->Ok_0.0@
                == payload && r->Ok_0.1@ == salt,
        r matches Ok((payload, salt)) ==> salt@ == data@.subrange(4, 4 + SALT_LEN as int),
        r is Ok ==> password@.len() <= MAX_PASSWORD_LEN,
        r matches Ok((payload, salt)) ==> data@.subrange(HEADER_LEN as int, data@.len() as int)
            == chacha_seal(
            argon2id_of(password@, salt@),
            data@.subrange(4 + SALT_LEN as int, HEADER_LEN as int),
            payload@,
        ),
        r matches Err(e) ==> (e is InvalidConfig || e is UnsupportedVersion
            || e is KeyGenerationFailed || e is DecryptionFailed),
{
    let c = match parse_container(data) {
        Ok(c) => c,
        Err(e) => {
            proof {
                assert forall|salt: Seq<u8>, nonce: Seq<u8>, payload: Seq<u8>|
                    is_sealed_with(data@, password@, salt, nonce, payload) implies false by {
                    lemma_sealed_parses(data@, password@, salt, salt, nonce, payload);
                }
            }
            return Err(e);
        },
    };
    let dk = match derive_key_with_salt(password, c.salt.as_slice()) {
        Ok(dk) => dk,
        Err(e) => {
            return Err(e);
        },
    };
    let payload = match decrypt(dk.key.as_slice(), c.nonce.as_slice(), c.ciphertext.as_slice()) {
        Ok(p) => p,
        Err(e) => {
            proof {
                assert forall|salt: Seq<u8>, nonce: Seq<u8>, payload: Seq<u8>|
                    is_sealed_with(data@, password@, salt, nonce, payload) implies false by {
                    lemma_sealed_parses(data@, password@, salt, salt, nonce, payload);
                }
            }
            return Err(e);
        },
    };
    proof {
        assert forall|salt: Seq<u8>, nonce: Seq<u8>, pl: Seq<u8>|
            is_sealed_with(data@, password@, salt, nonce, pl) implies payload@ == pl && c.salt@
            == salt by {
            lemma_sealed_parses(data@, password@, salt, salt, nonce, pl);
        }
        assert(c.nonce@ == data@.subrange(4 + SALT_LEN as int, HEADER_LEN as int));
        assert(data@.subrange(HEADER_LEN as int, data@.len() as int) == chacha_seal(
            argon2id_of(password@, c.salt@),
            data@.subrange(4 + SALT_LEN as int, HEADER_LEN as int),
            payload@,
        ));
    }
    let salt = c.salt;
    Ok((payload, salt))
}

/// Open container bytes with a password and a salt supplied by the caller,
/// ignoring the salt embedded in the container. The identity container's
/// salt is the single source of truth for the installation; the
/// server-list container is opened with it rather than with its own copy.
pub fn open_container_with_salt(data: &[u8], password: &[u8], salt: &[u8]) -> (r: Result<
    SecureBytes,
    SecureSshError,
>)
    requires
        salt@.len() == SALT_LEN,
    ensures
        forall|esalt: Seq<u8>, nonce: Seq<u8>, payload: Seq<u8>|
            is_sealed(data@, password@, salt@, esalt, nonce, payload) ==> r is Ok && r->Ok_0@
                == payload,
        r is Ok ==> password@.len() <= MAX_PASSWORD_LEN,
        r matches Ok(payload) ==> data@.subrange(HEADER_LEN as int, data@.len() as int)
            == chacha_seal(
            argon2id_of(password@, salt@),
            data@.subrange(4 + SALT_LEN as int, HEADER_LEN as int),
            payload@,
        ),
        r matches Err(e) ==> (e is InvalidConfig || e is UnsupportedVersion
            || e is KeyGenerationFailed || e is DecryptionFailed),
{
    let c = match parse_container(data) {
        Ok(c) => c,
        Err(e) => {
            proof {
                assert forall|esalt: Seq<u8>, nonce: Seq<u8>, payload: Seq<u8>|
                    is_sealed(data@, password@, salt@, esalt, nonce, payload) implies false by {
                    lemma_sealed_parses(data@, password@, salt@, esalt, nonce, payload);
                }
            }
            return Err(e);
        },
    };
    let dk = match derive_key_with_salt(password, salt) {
        Ok(dk) => dk,
        Err(e) => {
            return Err(e);
        },
    };
    let payload = match decrypt(dk.key.as_slice(), c.nonce.as_slice(), c.ciphertext.as_slice()) {
        Ok(p) => p,
        Err(e) => {
            proof {
                assert forall|esalt: Seq<u8>, nonce: Seq<u8>, payload: Seq<u8>|
                    is_sealed(data@, password@, salt@, esalt, nonce, payload) implies false by {
                    lemma_sealed_parses(data@, password@, salt@, esalt, nonce, payload);
                }
            }
            return Err(e);
        },
    };
    proof {
        assert forall|esalt: Seq<u8>, nonce: Seq<u8>, pl: Seq<u8>|
            is_sealed(data@, password@, salt@, esalt, nonce, pl) implies payload@ == pl by {
            lemma_sealed_parses(data@, password@, salt@, esalt, nonce, pl);
        }
        assert(c.nonce@ == data@.subrange(4 + SALT_LEN as int, HEADER_LEN as int));
        assert(data@.subrange(HEADER_LEN as int, data@.len() as int) == chacha_seal(
            argon2id_of(password@, salt@),
            data@.subrange(4 + SALT_LEN as int, HEADER_LEN as int),
            payload@,
        ));
    }
    Ok(payload)
}

} // verus!
