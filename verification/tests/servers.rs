//! The server list, its serialized form, and the selection and password
//! rules.

use secure_ssh::codec::{encode_server_list, parse_server_list};
use secure_ssh::error::SecureSshError;
use secure_ssh::kdf::validate_new_password;
use secure_ssh::server::{names_distinct, select_by_index, select_server, Server, ServerList};

fn sample(name: &str, host: &str, port: u16, user: &str) -> Server {
    Server::new(name.to_string(), host.to_string(), port, user.to_string())
}

#[test]
fn test_add_and_get() {
    let mut list = ServerList::new();
    assert!(list.is_empty());

    list.add(sample("main", "h1", 22, "u1")).unwrap();
    list.add(sample("other", "h2", 23, "u2")).unwrap();

    assert_eq!(list.len(), 2);
    assert!(!list.is_empty());
    assert_eq!(list.get("main").unwrap().host, "h1");
    assert_eq!(list.get("other").unwrap().host, "h2");
    assert!(list.get("absent").is_none());
    assert_eq!(list.first().unwrap().name, "main");
    assert_eq!(list.iter().len(), 2);
}

#[test]
fn test_duplicate_name_rejected() {
    let mut list = ServerList::new();
    list.add(sample("main", "h1", 22, "u1")).unwrap();

    let result = list.add(sample("main", "h2", 23, "u2"));
    assert!(result.is_err());
    assert_eq!(list.len(), 1);
    assert_eq!(list.get("main").unwrap().host, "h1");
}

#[test]
fn test_remove_keeps_order() {
    let mut list = ServerList::new();
    list.add(sample("a", "h1", 22, "u")).unwrap();
    list.add(sample("b", "h2", 22, "u")).unwrap();
    list.add(sample("c", "h3", 22, "u")).unwrap();

    let removed = list.remove("b").unwrap();
    assert_eq!(removed.name, "b");
    assert_eq!(list.len(), 2);
    assert_eq!(list.iter()[0].name, "a");
    assert_eq!(list.iter()[1].name, "c");

    assert!(list.remove("b").is_none());
}

#[test]
fn test_connection_string_default_port() {
    let s = sample("x", "example.org", 22, "alice");
    assert_eq!(s.connection_string(), "alice@example.org");
}

#[test]
fn test_connection_string_custom_port() {
    let s = sample("x", "example.org", 2222, "alice");
    assert_eq!(s.connection_string(), "alice@example.org:2222");
}

#[test]
fn test_connection_string_single_digit_port() {
    let s = sample("x", "h", 7, "u");
    assert_eq!(s.connection_string(), "u@h:7");
}

#[test]
fn test_default_server() {
    let s = Server::default();
    assert_eq!(s.name, "main");
    assert_eq!(s.host, "localhost");
    assert_eq!(s.port, 22);
    assert_eq!(s.user, "root");
    assert_eq!(s.description, "");
}

#[test]
fn test_with_description() {
    let s = sample("x", "h", 22, "u").with_description("notes".to_string());
    assert_eq!(s.description, "notes");
    assert_eq!(s.name, "x");
}

#[test]
fn test_select_server_by_name() {
    let mut list = ServerList::new();
    list.add(sample("a", "h1", 22, "u")).unwrap();
    list.add(sample("b", "h2", 22, "u")).unwrap();

    let chosen = select_server(&list, Some("b")).unwrap().unwrap();
    assert_eq!(chosen.host, "h2");

    let missing = select_server(&list, Some("z"));
    assert!(matches!(missing, Err(SecureSshError::ServerNotFound(_))));
}

#[test]
fn test_select_server_single_entry() {
    let mut list = ServerList::new();
    list.add(sample("only", "h", 22, "u")).unwrap();

    let chosen = select_server(&list, None).unwrap().unwrap();
    assert_eq!(chosen.name, "only");
}

#[test]
fn test_select_server_needs_choice() {
    let mut list = ServerList::new();
    list.add(sample("a", "h1", 22, "u")).unwrap();
    list.add(sample("b", "h2", 22, "u")).unwrap();

    assert!(select_server(&list, None).unwrap().is_none());

    let chosen = select_by_index(&list, 2).unwrap();
    assert_eq!(chosen.name, "b");
    assert!(select_by_index(&list, 0).is_err());
    assert!(select_by_index(&list, 3).is_err());
}

#[test]
fn test_names_distinct() {
    let mut list = ServerList::new();
    list.add(sample("a", "h1", 22, "u")).unwrap();
    list.add(sample("b", "h2", 22, "u")).unwrap();
    assert!(names_distinct(list.iter()));

    let dup = vec![sample("a", "h1", 22, "u"), sample("a", "h2", 22, "u")];
    assert!(!names_distinct(&dup));
}

#[test]
fn test_encode_server_list_exact_json() {
    let mut list = ServerList::new();
    list.add(
        sample("main", "example.org", 22, "alice").with_description("box \"one\"\n".to_string()),
    )
    .unwrap();

    let json = encode_server_list(&list);
    let expected = "{\"servers\":[{\"name\":\"main\",\"host\":\"example.org\",\"port\":22,\
                    \"user\":\"alice\",\"description\":\"box \\\"one\\\"\\n\"}]}";
    assert_eq!(json, expected.as_bytes());
}

#[test]
fn test_encode_empty_list() {
    let list = ServerList::new();
    assert_eq!(encode_server_list(&list), b"{\"servers\":[]}");
}

#[test]
fn test_parse_inverts_encode() {
    let mut list = ServerList::new();
    list.add(
        sample("we\u{00eb}rd\t", "h\u{00f8}st", 65535, "u\\ser")
            .with_description("line1\r\nline2\u{0001}".to_string()),
    )
    .unwrap();
    list.add(sample("plain", "h", 1, "u")).unwrap();

    let json = encode_server_list(&list);
    let parsed = parse_server_list(&json).unwrap();

    assert_eq!(parsed.len(), 2);
    let a = &parsed.iter()[0];
    assert_eq!(a.name, "we\u{00eb}rd\t");
    assert_eq!(a.host, "h\u{00f8}st");
    assert_eq!(a.port, 65535);
    assert_eq!(a.user, "u\\ser");
    assert_eq!(a.description, "line1\r\nline2\u{0001}");
    let b = &parsed.iter()[1];
    assert_eq!(b.name, "plain");
    assert_eq!(b.port, 1);
}

#[test]
fn test_encoded_json_readable_by_reference_parser() {
    // The canonical document is plain JSON: an independent parser reads
    // back exactly the fields that were encoded, escapes included.
    let mut list = ServerList::new();
    list.add(
        sample("m", "h.example", 2200, "u").with_description("d\n\"q\"\u{0001}".to_string()),
    )
    .unwrap();
    let bytes = encode_server_list(&list);

    let value: serde_json::Value = serde_json::from_slice(&bytes).unwrap();
    let servers = value.get("servers").unwrap().as_array().unwrap();
    assert_eq!(servers.len(), 1);
    let s = &servers[0];
    assert_eq!(s.get("name").unwrap().as_str().unwrap(), "m");
    assert_eq!(s.get("host").unwrap().as_str().unwrap(), "h.example");
    assert_eq!(s.get("port").unwrap().as_u64().unwrap(), 2200);
    assert_eq!(s.get("user").unwrap().as_str().unwrap(), "u");
    assert_eq!(s.get("description").unwrap().as_str().unwrap(), "d\n\"q\"\u{0001}");
}

#[test]
fn test_parse_rejects_garbage() {
    assert!(parse_server_list(b"").is_err());
    assert!(parse_server_list(b"{}").is_err());
    assert!(parse_server_list(b"{\"servers\":[").is_err());
    assert!(parse_server_list(b"{\"servers\":[]} ").is_err());
    assert!(parse_server_list(b"{\"servers\":[{\"name\":\"a\"}]}").is_err());
}

#[test]
fn test_validate_new_password() {
    assert!(validate_new_password("correct horse battery staple1", "correct horse battery staple1")
        .is_ok());
    assert!(matches!(
        validate_new_password("short", "short"),
        Err(SecureSshError::PasswordTooShort)
    ));
    assert!(matches!(
        validate_new_password("long enough password", "long enough passwird"),
        Err(SecureSshError::PasswordMismatch)
    ));
}
