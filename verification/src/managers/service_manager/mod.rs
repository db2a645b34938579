//! The routing hub: it reads a client's command and decides what is to be
//! done with the registry and the backends. Connecting, sending and
//! receiving are the caller's part; the hub says what to do and takes the
//! outcome back.

use vstd::prelude::*;
use vstd::string::StringExecFns;
use crate::managers::assoc::pairs_map;
use crate::managers::error::ServerError;
use crate::managers::json::{field_pairs, Document, DocumentView};
use crate::managers::json_text::{json_parse, json_text, to_value_from_str};
use crate::managers::text::{contains, equal, occurs_in, split, split_spec, texts};

pub mod helper;

use helper::{taken, EventQueue, RegistryView, Store, TCPServers};

verus! {

/// The hub. It receives commands and forwards them to the backend that a
/// command names; it owns the registry of backends and no documents.
#[derive(Debug)]
pub struct ServiceManager {
    store: Store,
    servers: TCPServers,
    event_queue: EventQueue,
}

/// What the hub asks of its caller in answer to a command.
#[derive(Debug)]
pub enum HubRequest {
    /// Nothing: this is the answer to the command.
    Answer(Result<String, ServerError>),
    /// To open a connection to `address`, for the backend `name`, and to
    /// hand the outcome to [`ServiceManager::greet`].
    Connect { name: String, address: String },
    /// To send `message`, the handshake, over `connection`, wait for the
    /// reply, and hand what [`TCPServers::received`] makes of it to
    /// [`ServiceManager::joined`], together with `name`.
    Greet { name: String, connection: u64, message: String },
    /// To send `message` over `connection`, wait for the reply, and answer
    /// with what [`TCPServers::received`] makes of it.
    Forward { connection: u64, message: String },
}

/// The mathematical value of a [`HubRequest`].
pub enum HubRequestView {
    Answer(Result<Seq<char>, ServerError>),
    Connect { name: Seq<char>, address: Seq<char> },
    Greet { name: Seq<char>, connection: u64, message: Seq<char> },
    Forward { connection: u64, message: Seq<char> },
}

impl HubRequest {
    pub open spec fn view(&self) -> HubRequestView {
        match self {
            HubRequest::Answer(Ok(text)) => HubRequestView::Answer(Ok(text@)),
            HubRequest::Answer(Err(e)) => HubRequestView::Answer(Err(*e)),
            HubRequest::Connect { name, address } => HubRequestView::Connect {
                name: name@,
                address: address@,
            },
            HubRequest::Greet { name, connection, message } => HubRequestView::Greet {
                name: name@,
                connection: *connection,
                message: message@,
            },
            HubRequest::Forward { connection, message } => HubRequestView::Forward {
                connection: *connection,
                message: message@,
            },
        }
    }
}

/// Word `i` of a command, empty where the command has no such word.
pub open spec fn word(tokens: Seq<Seq<char>>, i: int) -> Seq<char> {
    if 0 <= i < tokens.len() {
        tokens[i]
    } else {
        Seq::empty()
    }
}

/// The command of an envelope: the text of its field `command`, where the
/// envelope is an object and the field is a string.
pub open spec fn command_of(envelope: DocumentView) -> Option<Seq<char>> {
    match envelope.field("command"@) {
        Some(DocumentView::String(command)) => Some(command),
        _ => None,
    }
}

/// The message of an envelope: the text of its field `message`, the word
/// `Error` where the field is no string, and `None` where there is no such
/// field.
pub open spec fn message_of(envelope: DocumentView) -> Option<Seq<char>> {
    match envelope.field("message"@) {
        Some(DocumentView::String(message)) => Some(message),
        Some(_) => Some("Error"@),
        None => None,
    }
}

/// The address that an argument of `ADD` stands for: the argument as it is
/// where it holds a `:`, and else the argument as a port of `127.0.0.1`.
pub open spec fn resolved(arg: Seq<char>) -> Seq<char> {
    if occurs_in(":"@, arg) {
        arg
    } else {
        "127.0.0.1:"@ + arg
    }
}

/// The address that `ADD` connects to: the one that the argument stands for.
/// Where the name has an address bound to it, or that address is bound to a
/// name, there is none, and the command fails with `TAKEN`.
pub open spec fn add_plan(ports: Map<Seq<char>, Seq<char>>, name: Seq<char>, arg: Seq<char>)
    -> Result<Seq<char>, ServerError> {
    if taken(ports, name, resolved(arg)) {
        Err(ServerError::TAKEN)
    } else {
        Ok(resolved(arg))
    }
}

/// The name under which a backend is registered: `TCP` and `DB` are names,
/// and every other word stands for the empty name.
pub open spec fn static_name_of(name: Seq<char>) -> Seq<char> {
    if name == "TCP"@ {
        "TCP"@
    } else if name == "DB"@ {
        "DB"@
    } else {
        Seq::empty()
    }
}

/// The fields of the envelope that the usage text shows.
pub open spec fn usage_fields() -> Seq<(Seq<char>, DocumentView)> {
    seq![
        (
            "command"@,
            DocumentView::String(
                "command_for_service_manager server_name optional_argument"@,
            ),
        ),
        (
            "message"@,
            DocumentView::String("server_command server_argument optional_argument"@),
        ),
    ]
}

/// The text that answers a command with an unknown verb.
pub open spec fn usage_text() -> Seq<char> {
    "Use this format for message\n"@ + json_text(DocumentView::Object(pairs_map(usage_fields())))
}

/// The hub's dispatch: what a client's message does to the registry, and
/// what the hub asks or answers. The message is an envelope, a JSON object
/// whose field `command` holds a verb, a name and an argument, separated by
/// blanks. `dump` is the text that describes the hub's state.
pub open spec fn route(state: RegistryView, dump: Seq<char>, message: Seq<char>) -> (
    RegistryView,
    HubRequestView,
) {
    if json_parse(message) is None || command_of(json_parse(message)->Some_0) is None {
        (state, HubRequestView::Answer(Err(ServerError::INVALID_JSON)))
    } else {
        let envelope = json_parse(message)->Some_0;
        let tokens = split_spec(command_of(envelope)->Some_0, ' ');
        let verb = tokens[0];
        let name = word(tokens, 1);
        if verb == "ADD"@ {
            match add_plan(state.ports, name, word(tokens, 2)) {
                Ok(address) => (state, HubRequestView::Connect { name, address }),
                Err(e) => (state, HubRequestView::Answer(Err(e))),
            }
        } else if verb == "MSG"@ {
            match message_of(envelope) {
                Some(text) => if state.connections.contains_key(name) {
                    (
                        state,
                        HubRequestView::Forward {
                            connection: state.connections[name],
                            message: text,
                        },
                    )
                } else {
                    (state, HubRequestView::Answer(Err(ServerError::CONNECTION)))
                },
                None => (state, HubRequestView::Answer(Err(ServerError::INVALID_JSON))),
            }
        } else if verb == "DEL"@ {
            (
                RegistryView {
                    ports: state.ports.remove(name),
                    connections: state.connections.remove(name),
                },
                HubRequestView::Answer(Ok("Deleted server"@)),
            )
        } else if verb == "TEST"@ {
            (state, HubRequestView::Answer(Ok(dump)))
        } else {
            (state, HubRequestView::Answer(Ok(usage_text())))
        }
    }
}

/// The registry after a connection attempt for `name` at `address`, and the
/// outcome: the name under which the connection is registered, or the error.
///
/// A failed attempt changes nothing and gives `CONNECTION`. After a
/// successful one the address is bound to the registered name; the
/// connection is registered under it unless the name is empty
/// (`INVALID_ARG`) or has a connection already (`TAKEN`).
pub open spec fn after_connect(
    state: RegistryView,
    name: Seq<char>,
    address: Seq<char>,
    connection: Option<u64>,
) -> (RegistryView, Result<Seq<char>, ServerError>) {
    match connection {
        None => (state, Err(ServerError::CONNECTION)),
        Some(id) => {
            let registered = static_name_of(name);
            let ports = state.ports.insert(registered, address);
            if registered.len() == 0 {
                (
                    RegistryView { ports, connections: state.connections },
                    Err(ServerError::INVALID_ARG),
                )
            } else if state.connections.contains_key(registered) {
                (RegistryView { ports, connections: state.connections }, Err(ServerError::TAKEN))
            } else {
                (
                    RegistryView { ports, connections: state.connections.insert(registered, id) },
                    Ok(registered),
                )
            }
        },
    }
}

/// The command with which the hub greets a backend: the word `NEW`, the
/// user and the password, separated by blanks.
pub open spec fn handshake_text(user: Seq<char>, password: Seq<char>) -> Seq<char> {
    "NEW "@ + user + " "@ + password
}

/// The registry after a connection attempt, as [`after_connect`] says, and
/// the step that follows it: to greet the backend over its new connection
/// where it was registered, and else the error as the answer to `ADD`.
pub open spec fn after_attempt(
    state: RegistryView,
    name: Seq<char>,
    address: Seq<char>,
    connection: Option<u64>,
    user: Seq<char>,
    password: Seq<char>,
) -> (RegistryView, HubRequestView) {
    match after_connect(state, name, address, connection).1 {
        Ok(registered) => (
            after_connect(state, name, address, connection).0,
            HubRequestView::Greet {
                name: registered,
                connection: connection->Some_0,
                message: handshake_text(user, password),
            },
        ),
        Err(e) => (
            after_connect(state, name, address, connection).0,
            HubRequestView::Answer(Err(e)),
        ),
    }
}

/// Whether a backend's reply to the handshake refuses the hub: it holds the
/// word `Error` or `error`.
pub open spec fn refuses(reply: Seq<char>) -> bool {
    occurs_in("Error"@, reply) || occurs_in("error"@, reply)
}

/// The registry after the handshake with the backend registered as `name`,
/// and the answer to `ADD`: the backend's reply where it accepts the hub. A
/// refusal takes the name out again and gives `INCOMPLETE_OPERATION`; a
/// handshake that failed takes it out and gives `CONNECTION`.
pub open spec fn after_handshake(
    state: RegistryView,
    name: Seq<char>,
    reply: Result<Seq<char>, ServerError>,
) -> (RegistryView, Result<Seq<char>, ServerError>) {
    let rolled_back = RegistryView {
        ports: state.ports.remove(name),
        connections: state.connections.remove(name),
    };
    match reply {
        Ok(text) => if refuses(text) {
            (rolled_back, Err(ServerError::INCOMPLETE_OPERATION))
        } else {
            (state, Ok(text))
        },
        Err(_) => (rolled_back, Err(ServerError::CONNECTION)),
    }
}

/// The two kinds of front end that hand frames to a manager.
#[derive(Clone, Copy, Debug, PartialEq, Eq, Structural)]
pub enum Transport {
    Tcp,
    WebSocket,
}

/// What is done about a frame that is not UTF-8 text: the peer is told once,
/// and the connection goes on or ends.
#[derive(Debug)]
pub enum FrameAction {
    /// Send this text and go on reading.
    Reply(String),
    /// Send this text and end the connection.
    ReplyAndClose(String),
}

/// The fixed text that is sent for a frame that is not UTF-8 text.
pub open spec fn undecodable_text() -> Seq<char> {
    "server error"@
}

/// Decides what is done about a frame that is not UTF-8 text. Either kind
/// of connection is sent the same fixed text, once; a TCP connection then
/// goes on, a WebSocket connection ends.
pub fn undecodable(transport: Transport) -> (action: FrameAction)
    ensures
        match transport {
            Transport::Tcp => action matches FrameAction::Reply(text) && text@
                == undecodable_text(),
            Transport::WebSocket => action matches FrameAction::ReplyAndClose(text) && text@
                == undecodable_text(),
        },
{
    match transport {
        Transport::Tcp => FrameAction::Reply(String::from_str("server error")),
        Transport::WebSocket => FrameAction::ReplyAndClose(String::from_str("server error")),
    }
}

/// The text that is written back for the result of a command: the result
/// itself, or the user-facing text of the error.
pub open spec fn reply_text_of(result: Result<Seq<char>, ServerError>) -> Seq<char> {
    match result {
        Ok(text) => text,
        Err(e) => e.user_text(),
    }
}

/// Returns the text that is written back for the result of a command.
pub fn reply_text(result: Result<String, ServerError>) -> (text: String)
    ensures
        text@ == reply_text_of(
            match result {
                Ok(t) => Ok(t@),
                Err(e) => Err(e),
            },
        ),
{
    match result {
        Ok(text) => text,
        Err(e) => e.to_text(),
    }
}

/// Returns the name under which a backend is registered.
pub fn static_name(name: &str) -> (registered: &'static str)
    ensures
        registered@ == static_name_of(name@),
{
    if equal(name, "TCP") {
        "TCP"
    } else if equal(name, "DB") {
        "DB"
    } else {
        proof {
            reveal_strlit("");
        }
        ""
    }
}

/// Returns the command with which the hub greets a backend: the word `NEW`,
/// the user and the password, separated by blanks.
pub fn handshake(user: &str, password: &str) -> (command: String)
    ensures
        command@ == handshake_text(user@, password@),
{
    String::from_str("NEW ").concat(user).concat(" ").concat(password)
}

/// Returns word `i` of a command, empty where the command has no such word.
pub fn word_of(tokens: &Vec<String>, i: usize) -> (r: &str)
    ensures
        r@ == word(texts(tokens@), i as int),
{
    if i < tokens.len() {
        tokens[i].as_str()
    } else {
        proof {
            reveal_strlit("");
        }
        ""
    }
}

impl ServiceManager {
    /// The registry is well-formed.
    pub closed spec fn wf(&self) -> bool {
        self.servers.wf()
    }

    /// The state of the hub: that of its registry.
    pub closed spec fn view(&self) -> RegistryView {
        self.servers@
    }

    /// The text that describes the hub's state.
    pub closed spec fn dump(&self) -> Seq<char> {
        "Service Manager: "@ + self.servers.dump()
    }

    /// Returns a hub with an empty registry.
    pub fn new() -> (manager: ServiceManager)
        ensures
            manager.wf(),
            manager@.ports == Map::<Seq<char>, Seq<char>>::empty(),
            manager@.connections == Map::<Seq<char>, u64>::empty(),
    {
        ServiceManager {
            store: Store::new(),
            servers: TCPServers::new(),
            event_queue: EventQueue::new(),
        }
    }

    /// Returns the hub's registry.
    pub fn servers(&self) -> (servers: &TCPServers)
        ensures
            servers@ == self@,
            servers.wf() == self.wf(),
    {
        &self.servers
    }

    /// Finds the connection over which a message for the backend
    /// `server_key` is to be sent, as [`TCPServers::send_to_server`] does.
    pub fn send_to_server(&self, server_key: &str) -> (r: Result<u64, ServerError>)
        requires
            self.wf(),
        ensures
            r == (if self@.connections.contains_key(server_key@) {
                Ok::<u64, ServerError>(self@.connections[server_key@])
            } else {
                Err::<u64, ServerError>(ServerError::CONNECTION)
            }),
    {
        self.servers.send_to_server(server_key)
    }

    /// Registers connection `v` under name `k`: fails with `INVALID_ARG`
    /// where the name is empty and with `TAKEN` where it has a connection.
    pub fn new_server(&mut self, k: &str, v: u64) -> (r: Result<(), ServerError>)
        requires
            old(self).wf(),
        ensures
            final(self).wf(),
            final(self)@.ports == old(self)@.ports,
            r == (if k@.len() == 0 {
                Err::<(), ServerError>(ServerError::INVALID_ARG)
            } else if old(self)@.connections.contains_key(k@) {
                Err::<(), ServerError>(ServerError::TAKEN)
            } else {
                Ok::<(), ServerError>(())
            }),
            final(self)@.connections == (if r is Ok {
                old(self)@.connections.insert(k@, v)
            } else {
                old(self)@.connections
            }),
    {
        if !k.is_empty() {
            if !self.servers.contains_key(k) {
                let _ = self.servers.insert(k, v);
                Ok(())
            } else {
                Err(ServerError::TAKEN)
            }
        } else {
            Err(ServerError::INVALID_ARG)
        }
    }

    /// Checks that name `k` and address `v` are free, as
    /// [`TCPServers::contains`] does.
    pub fn contains_s_p(&self, k: &str, v: &str) -> (r: Result<(), ServerError>)
        requires
            self.wf(),
        ensures
            r == (if taken(self@.ports, k@, v@) {
                Err::<(), ServerError>(ServerError::TAKEN)
            } else {
                Ok::<(), ServerError>(())
            }),
    {
        self.servers.contains(k, v)
    }

    /// Plans an `ADD`: works out the address that the argument stands for,
    /// checks that the name and that address are free, and returns the
    /// address to connect to, as [`add_plan`] says.
    pub fn add_cmd(&self, cmd: &str, arg: &str) -> (r: Result<String, ServerError>)
        requires
            self.wf(),
        ensures
            match add_plan(self@.ports, cmd@, arg@) {
                Ok(address) => r is Ok && r->Ok_0@ == address,
                Err(e) => r == Err::<String, ServerError>(e),
            },
    {
        let address = if contains(arg, ":") {
            arg.to_owned()
        } else {
            String::from_str("127.0.0.1:").concat(arg)
        };
        match self.contains_s_p(cmd, address.as_str()) {
            Ok(()) => Ok(address),
            Err(e) => Err(e),
        }
    }

    /// Takes the outcome of the connection attempt that an `ADD` asked for:
    /// `connection` is the new connection, or `None` where none could be
    /// opened. Returns the name under which the connection is now
    /// registered. The registry changes as [`after_connect`] says.
    pub fn connected(&mut self, name: &str, address: String, connection: Option<u64>) -> (r: Result<
        String,
        ServerError,
    >)
        requires
            old(self).wf(),
        ensures
            final(self).wf(),
            final(self)@ == after_connect(old(self)@, name@, address@, connection).0,
            match after_connect(old(self)@, name@, address@, connection).1 {
                Ok(registered) => r is Ok && r->Ok_0@ == registered,
                Err(e) => r == Err::<String, ServerError>(e),
            },
    {
        match connection {
            None => Err(ServerError::CONNECTION),
            Some(id) => {
                let registered = static_name(name);
                let _ = self.servers.insert_port(registered, address);
                match self.new_server(registered, id) {
                    Ok(()) => Ok(registered.to_owned()),
                    Err(e) => Err(e),
                }
            },
        }
    }

    /// Takes the outcome of the connection attempt that an `ADD` asked for
    /// and says what follows, as [`after_attempt`] says: `connection` is the
    /// new connection, or `None` where none could be opened; `user` and
    /// `password` are the credentials that the hub greets a backend with.
    /// Where the request is an answer, the `ADD` has failed and the caller
    /// closes the connection.
    pub fn greet(
        &mut self,
        name: &str,
        address: String,
        connection: Option<u64>,
        user: &str,
        password: &str,
    ) -> (r: HubRequest)
        requires
            old(self).wf(),
        ensures
            final(self).wf(),
            final(self)@ == after_attempt(
                old(self)@,
                name@,
                address@,
                connection,
                user@,
                password@,
            ).0,
            r@ == after_attempt(old(self)@, name@, address@, connection, user@, password@).1,
    {
        match self.connected(name, address, connection) {
            Ok(registered) => match connection {
                Some(id) => HubRequest::Greet {
                    name: registered,
                    connection: id,
                    message: handshake(user, password),
                },
                None => HubRequest::Answer(Err(ServerError::CONNECTION)),
            },
            Err(e) => HubRequest::Answer(Err(e)),
        }
    }

    /// Takes the backend's reply to the handshake and answers the `ADD`, as
    /// [`after_handshake`] says. Where the backend is taken out of the
    /// registry again, the caller closes its connection.
    pub fn joined(&mut self, name: &str, reply: Result<String, ServerError>) -> (r: Result<
        String,
        ServerError,
    >)
        requires
            old(self).wf(),
        ensures
            final(self).wf(),
            final(self)@ == after_handshake(
                old(self)@,
                name@,
                match reply {
                    Ok(t) => Ok(t@),
                    Err(e) => Err(e),
                },
            ).0,
            match after_handshake(
                old(self)@,
                name@,
                match reply {
                    Ok(t) => Ok(t@),
                    Err(e) => Err(e),
                },
            ).1 {
                Ok(text) => r is Ok && r->Ok_0@ == text,
                Err(e) => r == Err::<String, ServerError>(e),
            },
    {
        match reply {
            Ok(text) => {
                if contains(text.as_str(), "Error") || contains(text.as_str(), "error") {
                    let _ = self.servers.remove_server(name);
                    Err(ServerError::INCOMPLETE_OPERATION)
                } else {
                    Ok(text)
                }
            },
            Err(_) => {
                let _ = self.servers.remove_server(name);
                Err(ServerError::CONNECTION)
            },
        }
    }

    /// Returns the text that describes the hub's state: the bindings of its
    /// registry.
    pub fn describe(&self) -> (text: String)
        ensures
            text@ == self.dump(),
    {
        String::from_str("Service Manager: ").concat(self.servers.describe().as_str())
    }

    /// Returns the text that answers a command with an unknown verb.
    pub fn usage() -> (text: String)
        ensures
            text@ == usage_text(),
    {
        let mut fields: Vec<(String, Document)> = Vec::new();
        fields.push(
            (
                String::from_str("command"),
                Document::String(
                    String::from_str("command_for_service_manager server_name optional_argument"),
                ),
            ),
        );
        fields.push(
            (
                String::from_str("message"),
                Document::String(
                    String::from_str("server_command server_argument optional_argument"),
                ),
            ),
        );
        proof {
            reveal_strlit("command");
            reveal_strlit("message");
            assert("command"@[0] != "message"@[0]);
            assert(field_pairs(fields@) =~= usage_fields());
            assert(fields@[0].1.wf() && fields@[1].1.wf());
        }
        let example = Document::Object(fields);
        String::from_str("Use this format for message\n").concat(example.to_string().as_str())
    }

    /// What sending an answer to a client comes to, given whether the text
    /// could be written to the client's channel: a TCP client that could not
    /// be written to gives `NO_VALUE`.
    pub fn send(transport: Transport, written: bool) -> (r: Result<(), ServerError>)
        ensures
            r == (if transport == Transport::Tcp && !written {
                Err::<(), ServerError>(ServerError::NO_VALUE)
            } else {
                Ok::<(), ServerError>(())
            }),
    {
        match transport {
            Transport::Tcp => if written {
                Ok(())
            } else {
                Err(ServerError::NO_VALUE)
            },
            Transport::WebSocket => Ok(()),
        }
    }

    /// Handles one command of a client, as [`route`] says. `_id` names the
    /// client's connection; no command reads it.
    pub fn process_message(&mut self, message: &str, _id: &str) -> (r: HubRequest)
        requires
            old(self).wf(),
        ensures
            final(self).wf(),
            final(self)@ == route(old(self)@, old(self).dump(), message@).0,
            r@ == route(old(self)@, old(self).dump(), message@).1,
    {
        let envelope = match to_value_from_str(message) {
            Some(envelope) => envelope,
            None => { return HubRequest::Answer(Err(ServerError::INVALID_JSON)); },
        };
        let command = match envelope.get(&"command".to_owned()) {
            Some(Document::String(command)) => command,
            _ => { return HubRequest::Answer(Err(ServerError::INVALID_JSON)); },
        };
        let tokens = split(command.as_str(), ' ');
        let verb = tokens[0].as_str();
        let name = word_of(&tokens, 1);
        if equal(verb, "ADD") {
            match self.add_cmd(name, word_of(&tokens, 2)) {
                Ok(address) => HubRequest::Connect { name: name.to_owned(), address },
                Err(e) => HubRequest::Answer(Err(e)),
            }
        } else if equal(verb, "MSG") {
            match envelope.get(&"message".to_owned()) {
                Some(found) => {
                    let text = match found {
                        Document::String(text) => text.clone(),
                        _ => String::from_str("Error"),
                    };
                    match self.send_to_server(name) {
                        Ok(connection) => HubRequest::Forward { connection, message: text },
                        Err(e) => HubRequest::Answer(Err(e)),
                    }
                },
                None => HubRequest::Answer(Err(ServerError::INVALID_JSON)),
            }
        } else if equal(verb, "DEL") {
            let _ = self.servers.remove_server(name);
            HubRequest::Answer(Ok(String::from_str("Deleted server")))
        } else if equal(verb, "TEST") {
            HubRequest::Answer(Ok(self.describe()))
        } else {
            HubRequest::Answer(Ok(ServiceManager::usage()))
        }
    }
}

} // verus!
