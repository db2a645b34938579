//! The hub's registry of backend connections, and the login check.
//!
//! A connection is known to the registry by a number that its owner gives
//! it. The socket itself stays with the owner, who sends and receives for
//! the registry.

use vstd::prelude::*;
use vstd::string::StringExecFns;
use vstd::utf8::{decode_utf8, encode_utf8, valid_utf8};
use crate::managers::assoc::{
    item_pairs, items_map, keys_distinct, lemma_pairs_dom, lemma_pairs_value, lookup, put, take,
};
use crate::managers::error::ServerError;
use crate::managers::json::{Document, DocumentView};
use crate::managers::json_text::json_text;
use crate::managers::session_manager::{argon2_accepts, hash_bytes};

verus! {

/// What is sent over a connection that another takes the place of.
pub const PROBE: &'static str = "NEW";

/// How many bytes of a backend's reply are read.
pub const REPLY_BUFFER: usize = 1024;

/// How long a backend's reply is waited for: the whole seconds.
pub const REPLY_TIMEOUT_SECONDS: u64 = 7;

/// How long a backend's reply is waited for: the nanoseconds beyond the whole
/// seconds.
pub const REPLY_TIMEOUT_NANOSECONDS: u32 = 50;

/// The addresses by name, as texts.
pub open spec fn ports_view(ports: Seq<(String, String)>) -> Map<Seq<char>, Seq<char>> {
    items_map(ports).map_values(|address: String| address@)
}

/// The registry of backend connections: the connection and the address that
/// each name is bound to.
#[derive(Debug)]
pub struct TCPServers {
    ports: Vec<(String, String)>,
    store: Vec<(String, u64)>,
}

/// The mathematical state of a [`TCPServers`].
pub struct RegistryView {
    /// The address bound to each name.
    pub ports: Map<Seq<char>, Seq<char>>,
    /// The connection registered under each name.
    pub connections: Map<Seq<char>, u64>,
}

/// Whether a name or an address is in use: the name has an address bound to
/// it, or the address is bound to some name.
pub open spec fn taken(ports: Map<Seq<char>, Seq<char>>, name: Seq<char>, address: Seq<char>)
    -> bool {
    ports.contains_key(name) || ports.contains_value(address)
}

/// What the reply of a backend amounts to. `None` stands for a message that
/// could not be sent; otherwise the bytes are those that were read, none
/// where reading failed.
pub open spec fn reply_of(outcome: Option<Seq<u8>>) -> Result<Seq<char>, ServerError> {
    match outcome {
        None => Err(ServerError::CONNECTION),
        Some(bytes) => if bytes.len() == 0 || !valid_utf8(bytes) {
            Err(ServerError::INVALID_DATA)
        } else {
            Ok(decode_utf8(bytes))
        },
    }
}

/// `std::str::from_utf8` accepts the bytes exactly if they are valid UTF-8,
/// and the text it returns is the text that they encode.
#[verifier::external_body]
fn text_of_bytes(bytes: &[u8]) -> (r: Option<&str>)
    ensures
        r is Some <==> valid_utf8(bytes@),
        r is Some ==> r->Some_0@ == decode_utf8(bytes@),
{
    std::str::from_utf8(bytes).ok()
}

/// Decodes a frame as UTF-8 text, if it is one.
pub fn decode_frame(bytes: &[u8]) -> (r: Option<String>)
    ensures
        r is Some <==> valid_utf8(bytes@),
        r is Some ==> r->Some_0@ == decode_utf8(bytes@),
{
    match text_of_bytes(bytes) {
        Some(text) => Some(text.to_owned()),
        None => None,
    }
}

/// The names and addresses of a list of bindings, one after the other: each
/// name, `=`, its address and `;`.
pub open spec fn listing(ports: Seq<(String, String)>) -> Seq<char>
    decreases ports.len(),
{
    if ports.len() == 0 {
        Seq::empty()
    } else {
        listing(ports.drop_last()) + ports.last().0@ + "="@ + ports.last().1@ + ";"@
    }
}

/// The names of a list of connections, one after the other, each followed by
/// `;`.
pub open spec fn names(connections: Seq<(String, u64)>) -> Seq<char>
    decreases connections.len(),
{
    if connections.len() == 0 {
        Seq::empty()
    } else {
        names(connections.drop_last()) + connections.last().0@ + ";"@
    }
}

impl TCPServers {
    /// No name is bound twice.
    pub closed spec fn wf(&self) -> bool {
        keys_distinct(self.ports@) && keys_distinct(self.store@)
    }

    pub closed spec fn view(&self) -> RegistryView {
        RegistryView { ports: ports_view(self.ports@), connections: items_map(self.store@) }
    }

    /// The text that describes the registry: its bindings and the names of
    /// its connections, in the order in which they were made.
    pub closed spec fn dump(&self) -> Seq<char> {
        "ports: ("@ + listing(self.ports@) + "), connections: ("@ + names(self.store@) + ")"@
    }

    /// Returns the text that describes the registry.
    pub fn describe(&self) -> (text: String)
        ensures
            text@ == self.dump(),
    {
        let mut text = String::from_str("ports: (");
        let mut i: usize = 0;
        while i < self.ports.len()
            invariant
                i <= self.ports@.len(),
                text@ == "ports: ("@ + listing(self.ports@.take(i as int)),
            decreases self.ports@.len() - i,
        {
            let ghost done = self.ports@.take(i as int);
            let ghost next = self.ports@.take(i + 1);
            assert(next.drop_last() =~= done);
            text.append(self.ports[i].0.as_str());
            text.append("=");
            text.append(self.ports[i].1.as_str());
            text.append(";");
            assert(text@ =~= "ports: ("@ + listing(next));
            i += 1;
        }
        assert(self.ports@.take(self.ports@.len() as int) =~= self.ports@);
        text.append("), connections: (");
        let ghost head = text@;
        let mut j: usize = 0;
        while j < self.store.len()
            invariant
                j <= self.store@.len(),
                text@ == head + names(self.store@.take(j as int)),
            decreases self.store@.len() - j,
        {
            let ghost done = self.store@.take(j as int);
            let ghost next = self.store@.take(j + 1);
            assert(next.drop_last() =~= done);
            assert(next.last() == self.store@[j as int]);
            text.append(self.store[j].0.as_str());
            text.append(";");
            assert(text@ =~= head + names(next));
            j += 1;
        }
        assert(self.store@.take(self.store@.len() as int) =~= self.store@);
        text.append(")");
        text
    }

    /// Returns an empty registry.
    pub fn new() -> (servers: TCPServers)
        ensures
            servers.wf(),
            servers@.ports == Map::<Seq<char>, Seq<char>>::empty(),
            servers@.connections == Map::<Seq<char>, u64>::empty(),
    {
        let servers = TCPServers { ports: Vec::new(), store: Vec::new() };
        servers
    }

    /// Registers connection `v` under name `k` and returns the connection
    /// that it takes the place of, if any. Over that one the caller sends
    /// [`PROBE`] and hands the outcome to [`TCPServers::probed`].
    pub fn insert(&mut self, k: &str, v: u64) -> (previous: Option<u64>)
        requires
            old(self).wf(),
        ensures
            final(self).wf(),
            final(self)@.ports == old(self)@.ports,
            final(self)@.connections == old(self)@.connections.insert(k@, v),
            previous == (if old(self)@.connections.contains_key(k@) {
                Some(old(self)@.connections[k@])
            } else {
                None
            }),
    {
        put(&mut self.store, k.to_owned(), v)
    }

    /// What a registration comes to once the connection it replaced, if any,
    /// was sent the probe: `CONNECTION` where there was one and the probe
    /// could not be sent.
    pub fn probed(previous: Option<u64>, sent: bool) -> (r: Result<(), ServerError>)
        ensures
            r == (if previous is Some && !sent {
                Err::<(), ServerError>(ServerError::CONNECTION)
            } else {
                Ok::<(), ServerError>(())
            }),
    {
        match previous {
            Some(_) => if sent {
                Ok(())
            } else {
                Err(ServerError::CONNECTION)
            },
            None => Ok(()),
        }
    }

    /// Takes the connection under name `k` out of the registry.
    pub fn remove(&mut self, k: &str) -> (r: Result<(), ServerError>)
        requires
            old(self).wf(),
        ensures
            final(self).wf(),
            r is Ok,
            final(self)@.ports == old(self)@.ports,
            final(self)@.connections == old(self)@.connections.remove(k@),
    {
        let _ = take(&mut self.store, &k.to_owned());
        Ok(())
    }

    /// Says whether a connection is registered under name `k`.
    pub fn contains_key(&self, k: &str) -> (b: bool)
        requires
            self.wf(),
        ensures
            b == self@.connections.contains_key(k@),
    {
        lookup(&self.store, &k.to_owned()).is_some()
    }

    /// Returns the connection registered under name `k`, if there is one.
    pub fn connection(&self, k: &str) -> (r: Option<u64>)
        requires
            self.wf(),
        ensures
            r == (if self@.connections.contains_key(k@) {
                Some(self@.connections[k@])
            } else {
                None
            }),
    {
        match lookup(&self.store, &k.to_owned()) {
            Some(connection) => Some(*connection),
            None => None,
        }
    }

    /// Says whether the connection is registered under some name. The owner
    /// of the sockets closes those that no longer are.
    pub fn holds(&self, connection: u64) -> (b: bool)
        requires
            self.wf(),
        ensures
            b == self@.connections.contains_value(connection),
    {
        let mut i: usize = 0;
        while i < self.store.len()
            invariant
                self.wf(),
                i <= self.store@.len(),
                forall|j: int| 0 <= j < i ==> (#[trigger] self.store@[j]).1 != connection,
            decreases self.store@.len() - i,
        {
            if self.store[i].1 == connection {
                proof {
                    lemma_pairs_value(item_pairs(self.store@), i as int);
                    let key = self.store@[i as int].0@;
                    assert(items_map(self.store@)[key] == connection);
                }
                return true;
            }
            i += 1;
        }
        proof {
            let connections = items_map(self.store@);
            if connections.contains_value(connection) {
                let n = choose|n: Seq<char>| #[trigger]
                    connections.dom().contains(n) && connections[n] == connection;
                lemma_pairs_dom(item_pairs(self.store@), n);
                let j = choose|j: int|
                    0 <= j < item_pairs(self.store@).len() && (#[trigger] item_pairs(
                        self.store@,
                    )[j]).0 == n;
                lemma_pairs_value(item_pairs(self.store@), j);
            }
        }
        false
    }

    /// Checks that name `k` and address `v` are free: fails with `TAKEN`
    /// where the name has an address bound to it or the address is bound to
    /// a name.
    pub fn contains(&self, k: &str, v: &str) -> (r: Result<(), ServerError>)
        requires
            self.wf(),
        ensures
            r == (if taken(self@.ports, k@, v@) {
                Err::<(), ServerError>(ServerError::TAKEN)
            } else {
                Ok::<(), ServerError>(())
            }),
    {
        let name = k.to_owned();
        let address = v.to_owned();
        let mut i: usize = 0;
        while i < self.ports.len()
            invariant
                self.wf(),
                name@ == k@,
                address@ == v@,
                i <= self.ports@.len(),
                forall|j: int|
                    0 <= j < i ==> (#[trigger] self.ports@[j]).0@ != k@ && self.ports@[j].1@ != v@,
            decreases self.ports@.len() - i,
        {
            if self.ports[i].0 == name || self.ports[i].1 == address {
                proof {
                    lemma_pairs_value(item_pairs(self.ports@), i as int);
                    let key = self.ports@[i as int].0@;
                    assert(ports_view(self.ports@).dom().contains(key));
                }
                return Err(ServerError::TAKEN);
            }
            i += 1;
        }
        proof {
            let ports = ports_view(self.ports@);
            assert(!ports.contains_key(k@)) by {
                lemma_pairs_dom(item_pairs(self.ports@), k@);
                if items_map(self.ports@).contains_key(k@) {
                    let j = choose|j: int|
                        0 <= j < item_pairs(self.ports@).len() && (#[trigger] item_pairs(
                            self.ports@,
                        )[j]).0 == k@;
                    assert(self.ports@[j].0@ == k@);
                }
            }
            assert(!ports.contains_value(v@)) by {
                if ports.contains_value(v@) {
                    let n = choose|n: Seq<char>| #[trigger]
                        ports.dom().contains(n) && ports[n] == v@;
                    lemma_pairs_dom(item_pairs(self.ports@), n);
                    let j = choose|j: int|
                        0 <= j < item_pairs(self.ports@).len() && (#[trigger] item_pairs(
                            self.ports@,
                        )[j]).0 == n;
                    lemma_pairs_value(item_pairs(self.ports@), j);
                }
            }
        }
        Ok(())
    }

    /// Binds address `v` to name `k`. Returns `Ok` where the name had an
    /// address bound to it, which `v` replaces, and `Err` where the name is
    /// bound for the first time.
    pub fn insert_port(&mut self, k: &str, v: String) -> (r: Result<(), ()>)
        requires
            old(self).wf(),
        ensures
            final(self).wf(),
            final(self)@.connections == old(self)@.connections,
            final(self)@.ports == old(self)@.ports.insert(k@, v@),
            r is Ok <==> old(self)@.ports.contains_key(k@),
    {
        let ghost before = self.ports@;
        let previous = put(&mut self.ports, k.to_owned(), v);
        assert(ports_view(self.ports@) =~= ports_view(before).insert(k@, v@));
        match previous {
            Some(_) => Ok(()),
            None => Err(()),
        }
    }

    /// Takes name `k` out of the registry: its address and its connection.
    pub fn remove_server(&mut self, k: &str) -> (r: Result<(), ServerError>)
        requires
            old(self).wf(),
        ensures
            final(self).wf(),
            r is Ok,
            final(self)@.ports == old(self)@.ports.remove(k@),
            final(self)@.connections == old(self)@.connections.remove(k@),
    {
        let ghost before = self.ports@;
        let name = k.to_owned();
        let _ = take(&mut self.ports, &name);
        let _ = take(&mut self.store, &name);
        assert(ports_view(self.ports@) =~= ports_view(before).remove(k@));
        Ok(())
    }

    /// Finds the connection over which a message for name `k` is to be sent:
    /// fails with `CONNECTION` where no connection is registered under the
    /// name. The caller sends the message over the connection, reads the
    /// reply, and hands what happened to [`TCPServers::received`].
    pub fn send_to_server(&self, k: &str) -> (r: Result<u64, ServerError>)
        requires
            self.wf(),
        ensures
            r == (if self@.connections.contains_key(k@) {
                Ok::<u64, ServerError>(self@.connections[k@])
            } else {
                Err::<u64, ServerError>(ServerError::CONNECTION)
            }),
    {
        match self.connection(k) {
            Some(connection) => Ok(connection),
            None => Err(ServerError::CONNECTION),
        }
    }

    /// Turns what happened on a connection into the answer, as [`reply_of`]
    /// says. `outcome` is `None` where the message could not be sent;
    /// otherwise it holds the bytes that were read, none where reading
    /// failed or ran out of time.
    pub fn received(outcome: Option<&[u8]>) -> (r: Result<String, ServerError>)
        ensures
            match reply_of(
                match outcome {
                    Some(bytes) => Some(bytes@),
                    None => None,
                },
            ) {
                Ok(text) => r is Ok && r->Ok_0@ == text,
                Err(e) => r == Err::<String, ServerError>(e),
            },
    {
        match outcome {
            None => Err(ServerError::CONNECTION),
            Some(bytes) => {
                if bytes.len() == 0 {
                    return Err(ServerError::INVALID_DATA);
                }
                match decode_frame(bytes) {
                    Some(text) => Ok(text),
                    None => Err(ServerError::INVALID_DATA),
                }
            },
        }
    }
}

/// The hub's own document store. The hub routes and keeps no documents: the
/// store stays empty.
#[derive(Debug)]
pub struct Store {
    store: Vec<(String, Document)>,
}

impl Store {
    pub closed spec fn view(&self) -> Seq<(String, Document)> {
        self.store@
    }

    /// Returns an empty store.
    pub fn new() -> (store: Store)
        ensures
            store@.len() == 0,
    {
        Store { store: Vec::new() }
    }
}

/// The hub's queue of events. Nothing is queued yet.
#[derive(Debug)]
pub struct EventQueue {
    queue: Vec<String>,
}

impl EventQueue {
    pub closed spec fn view(&self) -> Seq<String> {
        self.queue@
    }

    /// Returns an empty queue.
    pub fn new() -> (queue: EventQueue)
        ensures
            queue@.len() == 0,
    {
        EventQueue { queue: Vec::new() }
    }
}

/// Whether a login is considered: the credentials are an object whose field
/// `email` is a string.
pub open spec fn login_accepts(data: DocumentView) -> bool {
    data.field("email"@) matches Some(email) && email is String
}

/// Returns the text that a login hashes, the credentials as JSON, where the
/// login is considered, and `None` where it is rejected outright.
pub fn login_credentials(data: &Document) -> (r: Option<String>)
    requires
        data.wf(),
    ensures
        match r {
            Some(text) => login_accepts(data@) && text@ == json_text(data@),
            None => !login_accepts(data@),
        },
{
    match data.get(&"email".to_owned()) {
        Some(Document::String(_)) => Some(data.to_string()),
        _ => None,
    }
}

/// What a login comes to once its credentials were hashed: the hash, or a
/// rejection where hashing failed.
pub fn login_answer(hashed: Result<String, argon2::password_hash::Error>) -> (r: Result<String, ()>)
    ensures
        match hashed {
            Ok(hash) => r == Ok::<String, ()>(hash),
            Err(_) => r is Err,
        },
{
    match hashed {
        Ok(hash) => Ok(hash),
        Err(_) => Err(()),
    }
}

/// Handles a login: hashes the credentials, written as JSON text, and
/// returns the hash, as [`login_answer`] says, or `Err` where the login is
/// rejected outright because [`login_accepts`] does not hold of the
/// credentials. Whether hashing succeeds is for `argon2` to say; a hash that
/// is returned is one that `argon2` accepts for the bytes of that text.
pub fn login_func(data: &Document) -> (r: Result<String, ()>)
    requires
        data.wf(),
    ensures
        !login_accepts(data@) ==> r is Err,
        r is Ok ==> argon2_accepts(encode_utf8(json_text(data@)), r->Ok_0@),
{
    match login_credentials(data) {
        Some(credentials) => login_answer(hash_bytes(credentials.as_str().as_bytes())),
        None => Err(()),
    }
}

} // verus!
