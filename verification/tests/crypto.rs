//! The key-derivation, cipher, keypair and secure-buffer behaviour, run
//! against the real outside crates.

use secure_ssh::aead::{decrypt, encrypt};
use secure_ssh::kdf::derive_key;
use secure_ssh::keys::{generate_keypair, KeyPair};
use secure_ssh::secure_bytes::SecureBytes;

#[test]
fn test_derive_key_deterministic() {
    let password = b"test_password_123";
    let salt = [0x42u8; 32];

    let key1 = derive_key(password, Some(&salt)).unwrap();
    let key2 = derive_key(password, Some(&salt)).unwrap();

    assert_eq!(key1.key.as_slice(), key2.key.as_slice());
}

#[test]
fn test_derive_key_different_salts() {
    let password = b"test_password_123";
    let salt1 = [0x42u8; 32];
    let salt2 = [0x43u8; 32];

    let key1 = derive_key(password, Some(&salt1)).unwrap();
    let key2 = derive_key(password, Some(&salt2)).unwrap();

    assert_ne!(key1.key.as_slice(), key2.key.as_slice());
}

#[test]
fn test_derive_key_random_salt() {
    let password = b"test_password_123";

    let key1 = derive_key(password, None).unwrap();
    let key2 = derive_key(password, None).unwrap();

    assert_ne!(key1.salt, key2.salt);
    assert_ne!(key1.key.as_slice(), key2.key.as_slice());
}

#[test]
fn test_derived_key_is_not_an_input() {
    let password = b"test_password_123";
    let salt = [0u8; 32];

    let key = derive_key(password, Some(&salt)).unwrap();

    assert_eq!(key.key.len(), 32);
    assert_ne!(key.key.as_slice(), &salt);
    assert_ne!(&key.key.as_slice()[..17], &password[..]);
    assert_ne!(key.key.as_slice(), &[0u8; 32]);
}

#[test]
fn test_encrypt_decrypt_roundtrip() {
    let key = [0x42u8; 32];
    let plaintext = b"Hello, World! This is secret data.";

    let (nonce, ciphertext) = encrypt(&key, plaintext).unwrap();
    let decrypted = decrypt(&key, &nonce, &ciphertext).unwrap();

    assert_eq!(decrypted.as_slice(), plaintext);
}

#[test]
fn test_wrong_key_fails() {
    let key1 = [0x42u8; 32];
    let key2 = [0x43u8; 32];
    let plaintext = b"Secret message";

    let (nonce, ciphertext) = encrypt(&key1, plaintext).unwrap();
    let result = decrypt(&key2, &nonce, &ciphertext);

    assert!(result.is_err());
}

#[test]
fn test_tampered_ciphertext_fails() {
    let key = [0x42u8; 32];
    let plaintext = b"Secret message";

    let (nonce, mut ciphertext) = encrypt(&key, plaintext).unwrap();

    if !ciphertext.is_empty() {
        ciphertext[0] ^= 0xFF;
    }

    let result = decrypt(&key, &nonce, &ciphertext);
    assert!(result.is_err());
}

#[test]
fn test_different_nonces_produce_different_ciphertext() {
    let key = [0x42u8; 32];
    let plaintext = b"Same message";

    let (nonce1, ciphertext1) = encrypt(&key, plaintext).unwrap();
    let (nonce2, ciphertext2) = encrypt(&key, plaintext).unwrap();

    assert_ne!(nonce1, nonce2);
    assert_ne!(ciphertext1, ciphertext2);
}

#[test]
fn test_empty_payload_roundtrip() {
    let key = [0x07u8; 32];

    let (nonce, ciphertext) = encrypt(&key, b"").unwrap();
    assert_eq!(ciphertext.len(), 16);

    let decrypted = decrypt(&key, &nonce, &ciphertext).unwrap();
    assert_eq!(decrypted.len(), 0);
}

#[test]
fn test_ciphertext_differs_from_plaintext() {
    let key = [0x42u8; 32];
    let plaintext = b"some plaintext bytes here";

    let (_, ciphertext) = encrypt(&key, plaintext).unwrap();

    assert_eq!(ciphertext.len(), plaintext.len() + 16);
    assert_ne!(&ciphertext[..plaintext.len()], &plaintext[..]);
}

#[test]
fn test_generate_keypair() {
    let keypair = generate_keypair().unwrap();

    assert_eq!(keypair.private_key_bytes().len(), 32);
    assert_eq!(keypair.public_key_bytes().len(), 32);
}

#[test]
fn test_keypair_from_private_key() {
    let original = generate_keypair().unwrap();
    let private_bytes = SecureBytes::new(original.private_key_bytes().to_vec());
    let original_public = original.public_key_bytes().to_vec();

    let restored = KeyPair::from_private_key(private_bytes).unwrap();

    assert_eq!(restored.public_key_bytes(), &original_public);
}

#[test]
fn test_keypair_rejects_short_seed() {
    let result = KeyPair::from_private_key(SecureBytes::new(vec![1u8; 16]));
    assert!(result.is_err());
}

#[test]
fn test_public_key_differs_from_seed() {
    let seed = vec![0x11u8; 32];
    let kp = KeyPair::from_private_key(SecureBytes::new(seed.clone())).unwrap();
    assert_ne!(kp.public_key_bytes(), seed.as_slice());
}

#[test]
fn test_public_key_matches_reference_implementation() {
    let seed = [0x5Au8; 32];
    let kp = KeyPair::from_private_key(SecureBytes::new(seed.to_vec())).unwrap();

    let reference = ed25519_dalek::SigningKey::from_bytes(&seed)
        .verifying_key()
        .to_bytes();
    assert_eq!(kp.public_key_bytes(), &reference);
}

#[test]
fn test_public_key_openssh_format() {
    let keypair = generate_keypair().unwrap();
    let openssh = keypair.public_key_openssh("test-comment");

    assert!(openssh.starts_with("ssh-ed25519 "));
    assert!(openssh.ends_with(" test-comment"));
}

#[test]
fn test_public_key_openssh_blob_decodes() {
    let keypair = generate_keypair().unwrap();
    let openssh = keypair.public_key_openssh("c");

    let parts: Vec<&str> = openssh.split(' ').collect();
    assert_eq!(parts.len(), 3);
    assert_eq!(parts[0], "ssh-ed25519");
    assert_eq!(parts[2], "c");

    let blob = base64::Engine::decode(&base64::engine::general_purpose::STANDARD, parts[1])
        .expect("the middle part is valid base64");
    let mut expected = Vec::new();
    expected.extend_from_slice(&11u32.to_be_bytes());
    expected.extend_from_slice(b"ssh-ed25519");
    expected.extend_from_slice(&32u32.to_be_bytes());
    expected.extend_from_slice(keypair.public_key_bytes());
    assert_eq!(blob, expected);
}

#[test]
fn test_secure_bytes_zeroed_on_drop() {
    let data = vec![0xDE, 0xAD, 0xBE, 0xEF];

    {
        let secure = SecureBytes::new(data);
        assert_eq!(secure.as_slice(), &[0xDE, 0xAD, 0xBE, 0xEF]);
    }
}

#[test]
fn test_secure_bytes_deref() {
    let secure = SecureBytes::new(vec![1, 2, 3, 4]);
    assert_eq!(secure.len(), 4);
    assert_eq!(secure.as_slice(), &[1, 2, 3, 4]);
}

#[test]
fn test_secure_bytes_wipe() {
    let mut secure = SecureBytes::new(vec![9, 9, 9]);
    secure.wipe();
    assert!(secure.is_empty());
    assert_eq!(secure.len(), 0);
}
