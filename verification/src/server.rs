//! Server configurations: a record per remote host and an ordered list of
//! them, keyed by unique name.
//!
//! Insertion order is preserved; adding a name that is already present is
//! rejected rather than overwriting.

use vstd::prelude::*;

use crate::encoding::{bytes_to_string, dec_chars, lemma_ascii_bytes_valid, lemma_dec_bytes_digits, u16_to_decimal};
use crate::error::SecureSshError;

verus! {

/// A single server configuration.
#[derive(Debug, Clone)]
pub struct Server {
    /// Unique name of this entry.
    pub name: String,
    /// Hostname or address.
    pub host: String,
    /// Port of the remote service.
    pub port: u16,
    /// User to connect as.
    pub user: String,
    /// Free-form description.
    pub description: String,
}

/// The connection string of a server: `user@host`, with `:port` appended
/// when the port is not the default 22.
pub open spec fn connection_string_of(user: Seq<char>, host: Seq<char>, port: u16) -> Seq<char> {
    if port == 22 {
        user + "@"@ + host
    } else {
        user + "@"@ + host + ":"@ + dec_chars(port as nat)
    }
}

impl Server {
    /// A record with the given coordinates and an empty description.
    pub fn new(name: String, host: String, port: u16, user: String) -> (r: Self)
        ensures
            r.name@ == name@,
            r.host@ == host@,
            r.port == port,
            r.user@ == user@,
            r.description@.len() == 0,
    {
        Server { name, host, port, user, description: String::new() }
    }

    /// The same record with the description replaced.
    pub fn with_description(self, description: String) -> (r: Self)
        ensures
            r.name@ == self.name@,
            r.host@ == self.host@,
            r.port == self.port,
            r.user@ == self.user@,
            r.description@ == description@,
    {
        Server { description, ..self }
    }

    /// The connection string `user@host`, or `user@host:port` for a
    /// non-default port.
    pub fn connection_string(&self) -> (r: String)
        ensures
            r@ == connection_string_of(self.user@, self.host@, self.port),
    {
        let mut line = self.user.clone();
        line.append("@");
        line.append(self.host.as_str());
        if self.port != 22 {
            line.append(":");
            let digits = u16_to_decimal(self.port);
            proof {
                lemma_dec_bytes_digits(self.port as nat);
                lemma_ascii_bytes_valid(digits@);
            }
            let digits_str = match bytes_to_string(digits) {
                Ok(s) => s,
                Err(_) => {
                    proof {
                        assert(false);
                    }
                    String::new()
                },
            };
            line.append(digits_str.as_str());
        }
        line
    }
}

impl Default for Server {
    /// The default record: `root@localhost:22`, named `main`.
    fn default() -> (r: Self)
        ensures
            r.name@ == "main"@,
            r.host@ == "localhost"@,
            r.port == 22,
            r.user@ == "root"@,
            r.description@.len() == 0,
    {
        Server {
            name: String::from_str("main"),
            host: String::from_str("localhost"),
            port: 22,
            user: String::from_str("root"),
            description: String::new(),
        }
    }
}

/// An ordered list of server configurations with unique names.
#[derive(Debug, Clone)]
pub struct ServerList {
    /// The records, in insertion order.
    pub servers: Vec<Server>,
}

/// Names are pairwise distinct across a sequence of records.
pub open spec fn distinct_names(ss: Seq<Server>) -> bool {
    forall|i: int, j: int|
        0 <= i < j < ss.len() ==> #[trigger] ss[i].name@ != #[trigger] ss[j].name@
}

/// Check that no two records share a name.
pub fn names_distinct(servers: &Vec<Server>) -> (r: bool)
    ensures
        r == distinct_names(servers@),
{
    let n = servers.len();
    let mut i: usize = 0;
    while i < n
        invariant
            i <= n,
            n == servers@.len(),
            forall|a: int, b: int|
                0 <= a < b < n && a < i ==> #[trigger] servers@[a].name@ != #[trigger] servers@[b].name@,
        decreases n - i,
    {
        let mut j = i + 1;
        while j < n
            invariant
                i < j <= n,
                i < n,
                n == servers@.len(),
                forall|b: int|
                    i < b < j ==> servers@[i as int].name@ != #[trigger] servers@[b].name@,
            decreases n - j,
        {
            if servers[i].name.eq(&servers[j].name) {
                return false;
            }
            j = j + 1;
        }
        i = i + 1;
    }
    true
}

impl ServerList {
    /// Whether some record carries this name.
    pub open spec fn contains_name(&self, name: Seq<char>) -> bool {
        exists|i: int| 0 <= i < self.servers@.len() && self.servers@[i].name@ == name
    }

    /// Names are pairwise distinct.
    pub open spec fn wf(&self) -> bool {
        distinct_names(self.servers@)
    }

    /// An empty list.
    pub fn new() -> (r: Self)
        ensures
            r.servers@.len() == 0,
            r.wf(),
    {
        ServerList { servers: Vec::new() }
    }

    /// Append a record, provided its name is not taken: then it becomes
    /// the last entry and everything else is unchanged. A duplicate name
    /// is rejected and the list stays as it was.
    pub fn add(&mut self, server: Server) -> (r: Result<(), &'static str>)
        requires
            old(self).wf(),
        ensures
            final(self).wf(),
            r is Ok <==> !old(self).contains_name(server.name@),
            r is Ok ==> final(self).servers@ == old(self).servers@.push(server),
            r is Err ==> final(self).servers@ == old(self).servers@,
    {
        let n = self.servers.len();
        let mut i: usize = 0;
        while i < n
            invariant
                i <= n,
                n == self.servers@.len(),
                self.servers@ == old(self).servers@,
                old(self).wf(),
                forall|j: int| 0 <= j < i ==> self.servers@[j].name@ != server.name@,
            decreases n - i,
        {
            if self.servers[i].name.eq(&server.name) {
                return Err("Server with this name already exists");
            }
            i = i + 1;
        }
        let ghost pre = self.servers@;
        self.servers.push(server);
        proof {
            assert forall|a: int, b: int| 0 <= a < b < self.servers@.len() implies #[trigger] self
                .servers@[a].name@ != #[trigger] self.servers@[b].name@ by {
                assert(self.servers@[a] == pre[a]);
                assert(pre =~= old(self).servers@);
                if b < pre.len() {
                    assert(self.servers@[b] == pre[b]);
                    assert(old(self).servers@[a].name@ != old(self).servers@[b].name@);
                } else {
                    assert(self.servers@[b] == server);
                    assert(pre[a].name@ != server.name@);
                }
            }
        }
        Ok(())
    }

    /// Remove the record with this name, handing it back: the rest keeps
    /// its order. With no such record the list stays as it was.
    pub fn remove(&mut self, name: &str) -> (r: Option<Server>)
        requires
            old(self).wf(),
        ensures
            final(self).wf(),
            r is Some <==> old(self).contains_name(name@),
            r matches Some(s) ==> s.name@ == name@ && exists|i: int|
                0 <= i < old(self).servers@.len() && old(self).servers@[i] == s
                    && final(self).servers@ == old(self).servers@.remove(i),
            r is None ==> final(self).servers@ == old(self).servers@,
    {
        let name_owned = String::from_str(name);
        proof {
            assert(name_owned@ == name@);
        }
        let n = self.servers.len();
        let mut i: usize = 0;
        while i < n
            invariant
                i <= n,
                n == self.servers@.len(),
                self.servers@ == old(self).servers@,
                old(self).wf(),
                name_owned@ == name@,
                forall|j: int| 0 <= j < i ==> self.servers@[j].name@ != name@,
            decreases n - i,
        {
            if self.servers[i].name.eq(&name_owned) {
                proof {
                    assert((i as int) < old(self).servers@.len());
                    assert(old(self).servers@[i as int].name@ == name@);
                }
                let ghost pre = self.servers@;
                let s = self.servers.remove(i);
                proof {
                    assert(self.servers@ == pre.remove(i as int));
                    assert forall|a: int, b: int| 0 <= a < b < self.servers@.len() implies #[
                        trigger
                    ] self.servers@[a].name@ != #[trigger] self.servers@[b].name@ by {
                        let a0 = if a < i as int { a } else { a + 1 };
                        let b0 = if b < i as int { b } else { b + 1 };
                        assert(self.servers@[a] == pre[a0]);
                        assert(self.servers@[b] == pre[b0]);
                        assert(pre[a0].name@ != pre[b0].name@);
                    }
                }
                return Some(s);
            }
            i = i + 1;
        }
        None
    }

    /// Borrow the record with this name, if any.
    pub fn get(&self, name: &str) -> (r: Option<&Server>)
        ensures
            r is Some <==> self.contains_name(name@),
            r matches Some(s) ==> s.name@ == name@ && exists|i: int|
                0 <= i < self.servers@.len() && self.servers@[i] == *s,
    {
        let name_owned = String::from_str(name);
        proof {
            assert(name_owned@ == name@);
        }
        let n = self.servers.len();
        let mut i: usize = 0;
        while i < n
            invariant
                i <= n,
                n == self.servers@.len(),
                name_owned@ == name@,
                forall|j: int| 0 <= j < i ==> self.servers@[j].name@ != name@,
            decreases n - i,
        {
            if self.servers[i].name.eq(&name_owned) {
                proof {
                    assert((i as int) < self.servers@.len());
                    assert(self.servers@[i as int].name@ == name@);
                }
                return Some(&self.servers[i]);
            }
            i = i + 1;
        }
        None
    }

    /// Whether the list has no records.
    pub fn is_empty(&self) -> (r: bool)
        ensures
            r == (self.servers@.len() == 0),
    {
        self.servers.len() == 0
    }

    /// How many records the list has.
    pub fn len(&self) -> (r: usize)
        ensures
            r == self.servers@.len(),
    {
        self.servers.len()
    }

    /// Borrow the first record, if any: the one to use when only one is
    /// configured.
    pub fn first(&self) -> (r: Option<&Server>)
        ensures
            r is Some <==> self.servers@.len() > 0,
            r matches Some(s) ==> *s == self.servers@[0],
    {
        if self.servers.len() > 0 {
            Some(&self.servers[0])
        } else {
            None
        }
    }

    /// Borrow all records, in insertion order.
    pub fn iter(&self) -> (r: &Vec<Server>)
        ensures
            r@ == self.servers@,
    {
        &self.servers
    }
}

impl Default for ServerList {
    /// An empty list.
    fn default() -> (r: Self)
        ensures
            r.servers@.len() == 0,
            r.wf(),
    {
        ServerList::new()
    }
}

/// Pick the server to connect to. A given name must exist; with no name,
/// a single configured server is chosen by itself, and several leave the
/// choice to the operator.
pub fn select_server<'a>(servers: &'a ServerList, name: Option<&str>) -> (r: Result<
    Option<&'a Server>,
    SecureSshError,
>)
    ensures
        r matches Ok(Some(s)) ==> (match name {
            Some(n) => s.name@ == n@ && servers.contains_name(n@),
            None => servers.servers@.len() == 1 && *s == servers.servers@[0],
        }),
        r matches Ok(None) ==> name is None && servers.servers@.len() != 1,
        r matches Err(e) ==> e is ServerNotFound && (name matches Some(n)
            && !servers.contains_name(n@)),
        name matches Some(n) ==> (r is Ok <==> servers.contains_name(n@)),
{
    match name {
        Some(n) => {
            match servers.get(n) {
                Some(s) => Ok(Some(s)),
                None => Err(SecureSshError::ServerNotFound(String::from_str(n))),
            }
        },
        None => {
            if servers.len() == 1 {
                Ok(servers.first())
            } else {
                Ok(None)
            }
        },
    }
}

/// Pick a server by the operator's one-based choice; anything outside the
/// list is rejected.
pub fn select_by_index<'a>(servers: &'a ServerList, choice: usize) -> (r: Result<
    &'a Server,
    SecureSshError,
>)
    ensures
        r is Ok <==> 1 <= choice <= servers.servers@.len(),
        r matches Ok(s) ==> *s == servers.servers@[choice - 1],
        r matches Err(e) ==> e is InvalidConfig,
{
    if choice >= 1 && choice <= servers.len() {
        Ok(&servers.servers[choice - 1])
    } else {
        Err(SecureSshError::InvalidConfig(String::from_str("invalid choice")))
    }
}

} // verus!
