//! The container format and the save/load round trips, run with the real
//! key derivation and cipher.

use secure_ssh::error::SecureSshError;
use secure_ssh::kdf::derive_key;
use secure_ssh::server::{Server, ServerList};
use secure_ssh::storage::{load_servers, save_servers};
use secure_ssh::vault::{
    encode_container, open_container, parse_container, seal_container, VaultContainer,
};

#[test]
fn test_container_layout_is_exact() {
    let c = VaultContainer {
        version: 1,
        salt: vec![0xAA; 32],
        nonce: vec![0xBB; 12],
        ciphertext: vec![0xCC; 20],
    };
    let bytes = encode_container(&c);

    assert_eq!(bytes.len(), 4 + 32 + 12 + 20);
    assert_eq!(&bytes[0..4], &[0, 0, 0, 1]);
    assert_eq!(&bytes[4..36], &[0xAA; 32][..]);
    assert_eq!(&bytes[36..48], &[0xBB; 12][..]);
    assert_eq!(&bytes[48..], &[0xCC; 20][..]);
}

#[test]
fn test_parse_container_roundtrip() {
    let c = VaultContainer {
        version: 1,
        salt: (0..32).collect(),
        nonce: (0..12).collect(),
        ciphertext: vec![7; 16],
    };
    let bytes = encode_container(&c);
    let parsed = parse_container(&bytes).unwrap();

    assert_eq!(parsed.version, 1);
    assert_eq!(parsed.salt, c.salt);
    assert_eq!(parsed.nonce, c.nonce);
    assert_eq!(parsed.ciphertext, c.ciphertext);
}

#[test]
fn test_truncated_container_rejected() {
    let bytes = vec![0u8; 63];
    let result = parse_container(&bytes);
    assert!(matches!(result, Err(SecureSshError::InvalidConfig(_))));
}

#[test]
fn test_wrong_version_rejected_before_decryption() {
    // A container whose version word is not the supported one is rejected
    // as UnsupportedVersion even though everything else, password
    // included, would be right.
    let mut c = VaultContainer {
        version: 2,
        salt: vec![0; 32],
        nonce: vec![0; 12],
        ciphertext: vec![0; 16],
    };
    let bytes = encode_container(&c);
    let result = parse_container(&bytes);
    assert!(matches!(result, Err(SecureSshError::UnsupportedVersion(2))));

    c.version = 1;
    let bytes = encode_container(&c);
    assert!(parse_container(&bytes).is_ok());
}

#[test]
fn test_wrong_version_rejected_with_correct_password() {
    let password = b"correct horse battery staple1";
    let salt = [0u8; 32];
    let dk = derive_key(password, Some(&salt)).unwrap();

    let mut bytes = seal_container(b"payload", &dk).unwrap();
    bytes[3] = 9;

    let result = open_container(&bytes, password);
    assert!(matches!(result, Err(SecureSshError::UnsupportedVersion(9))));
}

#[test]
fn test_vault_scenario_roundtrip() {
    // Derive from the fixed password and the all-zero salt, seal the
    // 32-byte payload, and load it back with the same password.
    let password = b"correct horse battery staple1";
    let salt = [0u8; 32];
    let payload = b"test-private-key-32-bytes-long!";

    let dk = derive_key(password, Some(&salt)).unwrap();
    let container = seal_container(payload, &dk).unwrap();

    let (loaded, embedded_salt) = open_container(&container, password).unwrap();
    assert_eq!(loaded.as_slice(), payload);
    assert_eq!(embedded_salt, salt.to_vec());
}

#[test]
fn test_vault_scenario_wrong_password() {
    let password = b"correct horse battery staple1";
    let salt = [0u8; 32];
    let payload = b"test-private-key-32-bytes-long!";

    let dk = derive_key(password, Some(&salt)).unwrap();
    let container = seal_container(payload, &dk).unwrap();

    let result = open_container(&container, b"wrong password");
    assert!(matches!(result, Err(SecureSshError::DecryptionFailed)));
}

#[test]
fn test_save_then_load_servers_roundtrip() {
    let password = b"a sufficiently long password";
    let salt = [0x21u8; 32];
    let dk = derive_key(password, Some(&salt)).unwrap();

    let mut list = ServerList::new();
    list.add(Server::new(
        "main".to_string(),
        "example.org".to_string(),
        22,
        "alice".to_string(),
    ))
    .unwrap();
    list.add(
        Server::new("backup".to_string(), "10.0.0.2".to_string(), 2222, "bob".to_string())
            .with_description("the \"spare\" box\n".to_string()),
    )
    .unwrap();

    let sealed = save_servers(&list, &dk).unwrap();
    let loaded = load_servers(&sealed, password, &salt).unwrap();

    assert_eq!(loaded.len(), 2);
    let a = loaded.get("main").unwrap();
    assert_eq!(a.host, "example.org");
    assert_eq!(a.port, 22);
    assert_eq!(a.user, "alice");
    assert_eq!(a.description, "");
    let b = loaded.get("backup").unwrap();
    assert_eq!(b.host, "10.0.0.2");
    assert_eq!(b.port, 2222);
    assert_eq!(b.user, "bob");
    assert_eq!(b.description, "the \"spare\" box\n");
}

#[test]
fn test_load_servers_wrong_password_fails() {
    let password = b"a sufficiently long password";
    let salt = [0x21u8; 32];
    let dk = derive_key(password, Some(&salt)).unwrap();

    let list = ServerList::new();
    let sealed = save_servers(&list, &dk).unwrap();

    let result = load_servers(&sealed, b"not that password", &salt);
    assert!(matches!(result, Err(SecureSshError::DecryptionFailed)));
}
