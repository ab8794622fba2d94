//! Where the vault's files live, and the sealed form of the server list.
//!
//! All files sit in a `data` directory next to the running program, except
//! the marker file, which sits in the program's own directory. The
//! functions here compute the paths from the program's directory and turn
//! the server list into sealed container bytes and back; reading and
//! writing the files is the surrounding code's job.

use vstd::prelude::*;

use crate::aead::{chacha_seal, MAX_PAYLOAD_LEN};
use crate::codec::{encode_server_list, parse_server_list, same_records, server_list_json};
use crate::error::SecureSshError;
use crate::kdf::DerivedKey;
use crate::server::{distinct_names, names_distinct, Server, ServerList};
use crate::vault::{container_bytes, is_sealed, open_container_with_salt, seal_container};
use crate::FORMAT_VERSION;
use crate::HEADER_LEN;
use crate::NONCE_LEN;
use crate::SALT_LEN;
use crate::TAG_LEN;

verus! {

/// The data directory, next to the program.
pub fn get_data_dir(exe_dir: &str) -> (r: String)
    ensures
        r@ == exe_dir@ + "/data"@,
{
    let mut p = String::from_str(exe_dir);
    p.append("/data");
    p
}

/// The encrypted identity container.
pub fn get_key_path(exe_dir: &str) -> (r: String)
    ensures
        r@ == exe_dir@ + "/data"@ + "/key.enc"@,
{
    let mut p = get_data_dir(exe_dir);
    p.append("/key.enc");
    p
}

/// The plaintext public-key export.
pub fn get_public_key_path(exe_dir: &str) -> (r: String)
    ensures
        r@ == exe_dir@ + "/data"@ + "/key.pub"@,
{
    let mut p = get_data_dir(exe_dir);
    p.append("/key.pub");
    p
}

/// The encrypted server-list container.
pub fn get_servers_path(exe_dir: &str) -> (r: String)
    ensures
        r@ == exe_dir@ + "/data"@ + "/servers.enc"@,
{
    let mut p = get_data_dir(exe_dir);
    p.append("/servers.enc");
    p
}

/// The marker file, in the program's own directory rather than the data
/// directory: its existence feeds the presence monitor.
pub fn get_marker_path(exe_dir: &str) -> (r: String)
    ensures
        r@ == exe_dir@ + "/.secure-ssh-marker"@,
{
    let mut p = String::from_str(exe_dir);
    p.append("/.secure-ssh-marker");
    p
}

/// Serialize the server list and seal it into container bytes under the
/// derived key, ready to be written as the server-list file.
pub fn save_servers(servers: &ServerList, dk: &DerivedKey) -> (r: Result<Vec<u8>, SecureSshError>)
    requires
        dk.wf(),
    ensures
        r is Ok <==> server_list_json(servers.servers@).len() <= MAX_PAYLOAD_LEN,
        r matches Ok(bytes) ==> exists|nonce: Seq<u8>|
            nonce.len() == NONCE_LEN && bytes@ == container_bytes(
                FORMAT_VERSION,
                dk.salt@,
                nonce,
                chacha_seal(dk.key@, nonce, server_list_json(servers.servers@)),
            ) && bytes@.len() == HEADER_LEN + TAG_LEN + server_list_json(servers.servers@).len(),
        r matches Err(e) ==> e is EncryptionFailed,
{
    let payload = encode_server_list(servers);
    seal_container(payload.as_slice(), dk)
}

/// Open sealed server-list bytes with the password and the salt taken
/// from the identity container, and parse the payload back into the list.
///
/// Together with [`save_servers`] this is the save/load round trip: bytes
/// sealed from a list under this password and salt come back as exactly
/// that list, same records in the same order. A wrong password fails as
/// `DecryptionFailed` before any payload is looked at, a payload that is
/// not a canonical list document as `Json`, and one with a duplicated
/// server name as `InvalidConfig`.
pub fn load_servers(data: &[u8], password: &[u8], salt: &[u8]) -> (r: Result<
    ServerList,
    SecureSshError,
>)
    requires
        salt@.len() == SALT_LEN,
    ensures
        forall|esalt: Seq<u8>, nonce: Seq<u8>, servers: Seq<Server>|
            #![trigger is_sealed(data@, password@, salt@, esalt, nonce, server_list_json(servers))]
            is_sealed(data@, password@, salt@, esalt, nonce, server_list_json(servers))
                && distinct_names(servers) ==> r is Ok && same_records(r->Ok_0.servers@, servers),
        r matches Ok(list) ==> list.wf(),
        r matches Err(e) ==> (e is InvalidConfig || e is UnsupportedVersion
            || e is KeyGenerationFailed || e is DecryptionFailed || e is Json),
{
    let payload = match open_container_with_salt(data, password, salt) {
        Ok(p) => p,
        Err(e) => {
            return Err(e);
        },
    };
    let bytes = payload.into_vec();
    let list = match parse_server_list(bytes.as_slice()) {
        Ok(list) => list,
        Err(_) => {
            return Err(
                SecureSshError::Json(String::from_str("server list payload is malformed")),
            );
        },
    };
    if !names_distinct(&list.servers) {
        proof {
            assert forall|esalt: Seq<u8>, nonce: Seq<u8>, servers: Seq<Server>|
                #![trigger is_sealed(data@, password@, salt@, esalt, nonce, server_list_json(servers))]
                is_sealed(data@, password@, salt@, esalt, nonce, server_list_json(servers))
                    && distinct_names(servers) implies false by {
                assert(same_records(list.servers@, servers));
                assert forall|i: int, j: int|
                    0 <= i < j < list.servers@.len() implies #[trigger] list.servers@[i].name@
                    != #[trigger] list.servers@[j].name@ by {
                    assert(servers[i].name@ != servers[j].name@);
                }
            }
        }
        return Err(SecureSshError::InvalidConfig(String::from_str("duplicate server name")));
    }
    proof {
        assert forall|esalt: Seq<u8>, nonce: Seq<u8>, servers: Seq<Server>|
            #![trigger is_sealed(data@, password@, salt@, esalt, nonce, server_list_json(servers))]
            is_sealed(data@, password@, salt@, esalt, nonce, server_list_json(servers))
                && distinct_names(servers) implies same_records(list.servers@, servers) by {}
    }
    Ok(list)
}

} // verus!
