//! Named connections and their lifecycle: a connection is made, started
//! (which asks the caller to bind or to connect), learns that its listener
//! is bound or that its socket is connected, registers the peers it
//! accepts, and may be started again after its server went away.
//!
//! The sockets, runtimes and channels live with the caller; a connection
//! here holds, as plain values, which of them exist.

use vstd::prelude::*;
use crate::NetworkSide;
use crate::settings::{IpAddress, TcpSettings};
use crate::connection_table::ConnectionTable;
use crate::client_connection::{
    ClientComponent,
    ClientRegistry,
    fresh_client_id,
    is_v4_id,
    listening_view,
    remaining_view,
};

verus! {

/// State of a TCP connection.
pub struct TcpState {
    /// The server's listener is bound.
    pub listener_ready: bool,
    /// A bound listener is awaited from the runtime.
    pub awaiting_listener: bool,
    /// A client's own end of the connection, once connected.
    pub local_client_connection: Option<ClientComponent>,
    /// The connection has been started (and not since lost).
    pub started: bool,
    /// A runtime runs the connection's tasks.
    pub runtime_running: bool,
    pub tcp_settings: TcpSettings,
    pub network_side: NetworkSide,
    pub connection_name: String,
    /// The peers a server accepted.
    pub clients_connected: ClientRegistry,
    /// Received messages are collected.
    pub receiving_messages: bool,
    /// Reading tasks can hand messages on.
    pub has_messages_sender: bool,
    /// A client awaits the outcome of connecting.
    pub awaiting_local_tcp: bool,
    /// A server announces the peers it accepts.
    pub awaiting_clients: bool,
}

/// State of a UDP connection.
pub struct UdpState {
    /// The socket is bound.
    pub socket_ready: bool,
    /// A bound socket is awaited from the runtime.
    pub awaiting_socket: bool,
    pub started: bool,
    pub runtime_running: bool,
    pub address: String,
    pub network_side: NetworkSide,
    pub connection_name: String,
}

/// A named connection.
pub enum ConnectionType {
    Tcp(TcpState),
    Udp(UdpState),
}

/// What the caller does after `start`.
#[derive(Debug, Clone, Copy, PartialEq, Eq)]
pub enum StartAction {
    /// Nothing to do.
    Nothing,
    /// Bind a listener on the address and accept peers.
    Listen { address: IpAddress, port: u16 },
    /// Connect to the address, then read frames as the settings lay them out.
    Connect { address: IpAddress, port: u16, tcp_settings: TcpSettings },
}

/// What the caller does after a client learned the outcome of connecting.
#[derive(Debug, Clone, Copy, PartialEq, Eq, Structural)]
pub enum LocalTcpAction {
    /// The connection was not waiting for this: nothing changed.
    Ignored,
    /// Connected: send the greeting through the new local end.
    SendGreeting,
    /// Connecting failed: the connection may be started again.
    Retry,
}

/// Starting and querying a connection.
pub trait ConnectionTrait {
    /// Starts the connection if it can start, and says what the caller must do.
    fn start(&mut self) -> StartAction;

    /// Whether the connection can be started.
    fn can_start(&mut self) -> bool;
}

/// The fields of two TCP states other than the peer registry agree.
pub open spec fn same_but_clients(a: TcpState, b: TcpState) -> bool {
    &&& a.listener_ready == b.listener_ready
    &&& a.awaiting_listener == b.awaiting_listener
    &&& a.local_client_connection == b.local_client_connection
    &&& a.started == b.started
    &&& a.runtime_running == b.runtime_running
    &&& a.tcp_settings == b.tcp_settings
    &&& a.network_side == b.network_side
    &&& a.connection_name == b.connection_name
    &&& a.receiving_messages == b.receiving_messages
    &&& a.has_messages_sender == b.has_messages_sender
    &&& a.awaiting_local_tcp == b.awaiting_local_tcp
    &&& a.awaiting_clients == b.awaiting_clients
}

impl ConnectionType {
    /// The connection's name.
    pub open spec fn key(self) -> Seq<char> {
        match self {
            ConnectionType::Tcp(t) => t.connection_name@,
            ConnectionType::Udp(u) => u.connection_name@,
        }
    }

    /// Whether the connection can be started: it has not been started.
    pub open spec fn spec_can_start(self) -> bool {
        match self {
            ConnectionType::Tcp(t) => !t.started,
            ConnectionType::Udp(u) => !u.started,
        }
    }

    /// The connection after `start`: a TCP connection that can start is
    /// marked started, with a runtime and a collector of messages; a server
    /// then awaits its listener and announces its peers, and its reading
    /// tasks can hand messages on; a client awaits the outcome of connecting.
    /// Anything else is left as it is.
    pub open spec fn after_start(self) -> ConnectionType {
        match self {
            ConnectionType::Tcp(t) => if t.started {
                self
            } else if t.network_side == NetworkSide::Server {
                ConnectionType::Tcp(
                    TcpState {
                        started: true,
                        awaiting_listener: true,
                        runtime_running: true,
                        receiving_messages: true,
                        has_messages_sender: true,
                        awaiting_clients: true,
                        ..t
                    },
                )
            } else {
                ConnectionType::Tcp(
                    TcpState {
                        started: true,
                        awaiting_local_tcp: true,
                        runtime_running: true,
                        receiving_messages: true,
                        ..t
                    },
                )
            },
            ConnectionType::Udp(_) => self,
        }
    }

    /// What `start` asks of the caller.
    pub open spec fn start_action(self) -> StartAction {
        match self {
            ConnectionType::Tcp(t) => if t.started {
                StartAction::Nothing
            } else if t.network_side == NetworkSide::Server {
                StartAction::Listen { address: t.tcp_settings.address, port: t.tcp_settings.port }
            } else {
                StartAction::Connect {
                    address: t.tcp_settings.address,
                    port: t.tcp_settings.port,
                    tcp_settings: t.tcp_settings,
                }
            },
            ConnectionType::Udp(_) => StartAction::Nothing,
        }
    }

    /// The connection after its listener was bound: a TCP connection that
    /// awaited one now has it.
    pub open spec fn after_listener_bound(self) -> ConnectionType {
        match self {
            ConnectionType::Tcp(t) => if t.awaiting_listener {
                ConnectionType::Tcp(TcpState { listener_ready: true, ..t })
            } else {
                self
            },
            ConnectionType::Udp(_) => self,
        }
    }

    /// A client connection that awaits the outcome of connecting and has no
    /// local end yet.
    pub open spec fn spec_wants_local_tcp(self) -> bool {
        match self {
            ConnectionType::Tcp(t) => t.local_client_connection is None && t.awaiting_local_tcp,
            ConnectionType::Udp(_) => false,
        }
    }

    /// The connection after its server went away: it is no longer started.
    pub open spec fn after_disconnect(self) -> ConnectionType {
        match self {
            ConnectionType::Tcp(t) => ConnectionType::Tcp(TcpState { started: false, ..t }),
            ConnectionType::Udp(_) => self,
        }
    }

    /// The connection's name.
    pub fn name(&self) -> (r: &String)
        ensures
            r@ == self.key(),
    {
        match self {
            ConnectionType::Tcp(t) => &t.connection_name,
            ConnectionType::Udp(u) => &u.connection_name,
        }
    }

    /// A TCP connection that was made but not started.
    pub open spec fn made(t: TcpState, tcp_settings: TcpSettings, network_side: NetworkSide, connection_name: String) -> bool {
        &&& t.listener_ready == false
        &&& t.awaiting_listener == false
        &&& t.local_client_connection is None
        &&& t.started == false
        &&& t.runtime_running == false
        &&& t.tcp_settings == tcp_settings
        &&& t.network_side == network_side
        &&& t.connection_name == connection_name
        &&& t.clients_connected@ == Map::<u128, ClientComponent>::empty()
        &&& t.receiving_messages == false
        &&& t.has_messages_sender == false
        &&& t.awaiting_local_tcp == false
        &&& t.awaiting_clients == false
    }

    /// A new, not yet started TCP connection.
    pub fn new_tcp(tcp_settings: TcpSettings, network_side: NetworkSide, connection_name: String) -> (c: ConnectionType)
        ensures
            c matches ConnectionType::Tcp(t) && ConnectionType::made(t, tcp_settings, network_side, connection_name),
    {
        ConnectionType::Tcp(
            TcpState {
                listener_ready: false,
                awaiting_listener: false,
                local_client_connection: None,
                started: false,
                runtime_running: false,
                tcp_settings,
                network_side,
                connection_name,
                clients_connected: ClientRegistry::new(),
                receiving_messages: false,
                has_messages_sender: false,
                awaiting_local_tcp: false,
                awaiting_clients: false,
            },
        )
    }

    /// Records that the listener the connection awaited is bound.
    pub fn on_listener_bound(&mut self)
        ensures
            *final(self) == old(self).after_listener_bound(),
    {
        match self {
            ConnectionType::Tcp(t) => {
                if t.awaiting_listener {
                    t.listener_ready = true;
                }
            },
            ConnectionType::Udp(_) => {},
        }
    }

    /// Whether the connection waits for the outcome of connecting.
    pub fn wants_local_tcp(&self) -> (b: bool)
        ensures
            b == self.spec_wants_local_tcp(),
    {
        match self {
            ConnectionType::Tcp(t) => t.local_client_connection.is_none() && t.awaiting_local_tcp,
            ConnectionType::Udp(_) => false,
        }
    }

    /// Records the outcome of connecting. If the connection waited for it:
    /// on success it gets its local end (client side, read by a task, under
    /// a fresh identifier) and the caller sends the greeting; on failure it is
    /// no longer started. Otherwise nothing changes.
    pub fn on_local_tcp_event(&mut self, connected: bool) -> (action: LocalTcpAction)
        ensures
            local_tcp_post(*old(self), *final(self), connected, action),
    {
        match self {
            ConnectionType::Tcp(t) => {
                if t.local_client_connection.is_none() && t.awaiting_local_tcp {
                    if connected {
                        let id = fresh_client_id();
                        t.local_client_connection = Some(
                            ClientComponent {
                                connection_name: t.connection_name.clone(),
                                network_side: NetworkSide::Client,
                                listening: true,
                                connection_dropped: false,
                                uuid: id,
                            },
                        );
                        LocalTcpAction::SendGreeting
                    } else {
                        t.started = false;
                        LocalTcpAction::Retry
                    }
                } else {
                    LocalTcpAction::Ignored
                }
            },
            ConnectionType::Udp(_) => LocalTcpAction::Ignored,
        }
    }

    /// Records that the server went away: the connection is no longer
    /// started, so that it connects again when next started.
    pub fn on_server_disconnected(&mut self)
        ensures
            *final(self) == old(self).after_disconnect(),
    {
        match self {
            ConnectionType::Tcp(t) => {
                t.started = false;
            },
            ConnectionType::Udp(_) => {},
        }
    }
}

/// How learning the outcome of connecting (`connected`) relates a
/// connection before (`c0`) and after (`c1`) to the action returned: a
/// connection that did not wait for it is unchanged; on failure it is no
/// longer started; on success it gets its local end (client side, read by
/// a task, not dropped, identified by a fresh version 4 UUID) and nothing
/// else changes.
pub open spec fn local_tcp_post(c0: ConnectionType, c1: ConnectionType, connected: bool, action: LocalTcpAction) -> bool {
    &&& !c0.spec_wants_local_tcp() ==> action == LocalTcpAction::Ignored && c1 == c0
    &&& c0.spec_wants_local_tcp() && !connected ==> action == LocalTcpAction::Retry && c1 == c0.after_disconnect()
    &&& c0.spec_wants_local_tcp() && connected ==> action == LocalTcpAction::SendGreeting && ({
        &&& c0 matches ConnectionType::Tcp(t0)
        &&& c1 matches ConnectionType::Tcp(t1)
        &&& t1.local_client_connection matches Some(local)
        &&& local.connection_name == t0.connection_name
        &&& local.network_side == NetworkSide::Client
        &&& local.listening
        &&& !local.connection_dropped
        &&& is_v4_id(local.uuid)
        &&& TcpState { local_client_connection: None, ..t1 } == t0
    })
}

/// How `start_listening_clients` relates a connection before (`c0`) and
/// after (`c1`) to the identifiers `started` it returns.
pub open spec fn listen_post(c0: ConnectionType, c1: ConnectionType, started: Seq<u128>) -> bool {
    match c0 {
        ConnectionType::Tcp(t0) => c1 matches ConnectionType::Tcp(t1) && same_but_clients(t0, t1) && if t0.has_messages_sender {
            &&& t1.clients_connected@ == listening_view(t0.clients_connected@)
            &&& forall|id: u128| #[trigger] started.contains(id) <==> (t0.clients_connected@.contains_key(id)
                && !t0.clients_connected@[id].listening)
            &&& started.no_duplicates()
        } else {
            t1.clients_connected@ == t0.clients_connected@ && started.len() == 0
        },
        ConnectionType::Udp(_) => c1 == c0 && started.len() == 0,
    }
}

/// How `remove_dropped_clients` relates a connection before (`c0`) and
/// after (`c1`) to the identifiers `removed` it returns.
pub open spec fn removed_post(c0: ConnectionType, c1: ConnectionType, removed: Seq<u128>) -> bool {
    match c0 {
        ConnectionType::Tcp(t0) => c1 matches ConnectionType::Tcp(t1) && same_but_clients(t0, t1)
            && t1.clients_connected@ == remaining_view(t0.clients_connected@)
            && (forall|id: u128| #[trigger] removed.contains(id) <==> (t0.clients_connected@.contains_key(id)
                && t0.clients_connected@[id].connection_dropped)) && removed.no_duplicates(),
        ConnectionType::Udp(_) => c1 == c0 && removed.len() == 0,
    }
}

impl ConnectionType {
    /// Registers a peer that the connection's server accepted, under a
    /// fresh identifier, which it returns; a UDP connection registers none.
    pub fn register_client(&mut self) -> (id: Option<u128>)
        ensures
            match *old(self) {
                ConnectionType::Tcp(t0) => id matches Some(i) && *final(self) matches ConnectionType::Tcp(t1)
                    && is_v4_id(i) && same_but_clients(t0, t1) && t1.clients_connected@ == t0.clients_connected@.insert(
                    i,
                    ClientComponent::accepted(t0.connection_name, i),
                ),
                ConnectionType::Udp(_) => id is None && *final(self) == *old(self),
            },
    {
        match self {
            ConnectionType::Tcp(t) => {
                let name = t.connection_name.clone();
                Some(t.clients_connected.register(name))
            },
            ConnectionType::Udp(_) => None,
        }
    }

    /// Marks the peer `id` of the connection as gone; returns whether the
    /// connection has such a peer.
    pub fn mark_client_dropped(&mut self, id: u128) -> (found: bool)
        ensures
            match *old(self) {
                ConnectionType::Tcp(t0) => *final(self) matches ConnectionType::Tcp(t1) && same_but_clients(t0, t1)
                    && found == t0.clients_connected@.contains_key(id) && (found ==> t1.clients_connected@
                    == t0.clients_connected@.insert(
                    id,
                    ClientComponent { connection_dropped: true, ..t0.clients_connected@[id] },
                )) && (!found ==> t1.clients_connected@ == t0.clients_connected@),
                ConnectionType::Udp(_) => !found && *final(self) == *old(self),
            },
    {
        match self {
            ConnectionType::Tcp(t) => t.clients_connected.mark_dropped(id),
            ConnectionType::Udp(_) => false,
        }
    }

    /// For a TCP connection whose reading tasks can hand messages on, marks
    /// every peer not yet read as listened to and returns their identifiers;
    /// otherwise returns none and changes nothing.
    pub fn start_listening_clients(&mut self) -> (started: Vec<u128>)
        ensures
            listen_post(*old(self), *final(self), started@),
    {
        match self {
            ConnectionType::Tcp(t) => {
                if t.has_messages_sender {
                    t.clients_connected.start_listening_all()
                } else {
                    Vec::new()
                }
            },
            ConnectionType::Udp(_) => Vec::new(),
        }
    }

    /// Removes the peers of the connection that have gone away, and returns
    /// their identifiers.
    pub fn remove_dropped_clients(&mut self) -> (removed: Vec<u128>)
        ensures
            removed_post(*old(self), *final(self), removed@),
    {
        match self {
            ConnectionType::Tcp(t) => t.clients_connected.remove_dropped(),
            ConnectionType::Udp(_) => Vec::new(),
        }
    }
}

impl ConnectionTrait for ConnectionType {
    fn start(&mut self) -> (action: StartAction)
        ensures
            *final(self) == old(self).after_start(),
            action == old(self).start_action(),
    {
        if !self.can_start() {
            return StartAction::Nothing;
        }
        match self {
            ConnectionType::Tcp(t) => {
                t.started = true;
                t.runtime_running = true;
                t.receiving_messages = true;
                if t.network_side == NetworkSide::Server {
                    t.awaiting_listener = true;
                    t.has_messages_sender = true;
                    t.awaiting_clients = true;
                    StartAction::Listen { address: t.tcp_settings.address, port: t.tcp_settings.port }
                } else {
                    t.awaiting_local_tcp = true;
                    StartAction::Connect {
                        address: t.tcp_settings.address,
                        port: t.tcp_settings.port,
                        tcp_settings: t.tcp_settings,
                    }
                }
            },
            ConnectionType::Udp(_) => StartAction::Nothing,
        }
    }

    fn can_start(&mut self) -> (b: bool)
        ensures
            b == old(self).spec_can_start(),
            *final(self) == *old(self),
    {
        match self {
            ConnectionType::Tcp(t) => !t.started,
            ConnectionType::Udp(u) => !u.started,
        }
    }
}


/// Making, removing and looking up named connections.
pub trait ConnectionsTrait {
    /// Makes a TCP connection named `connection_name`, unless one of that
    /// name exists.
    fn make_tcp_connection(&mut self, tcp_settings: TcpSettings, connection_name: String);

    /// Removes the connection named `connection_name`, if any.
    fn remove_connection(&mut self, connection_name: &str);

    /// Whether a connection named `connection_name` can be made: none of that
    /// name exists.
    fn can_connect(&mut self, connection_name: &str) -> bool;
}

/// The effect of `make_tcp_connection(tcp_settings, name)` on a table of
/// connections seen as the map `m0` (before) and `m1` (after), for side `side`.
pub open spec fn made_connection(
    m0: Map<Seq<char>, ConnectionType>,
    m1: Map<Seq<char>, ConnectionType>,
    tcp_settings: TcpSettings,
    name: String,
    side: NetworkSide,
) -> bool {
    if m0.contains_key(name@) {
        m1 == m0
    } else {
        &&& m1.dom() == m0.dom().insert(name@)
        &&& forall|k: Seq<char>| #[trigger] m0.contains_key(k) ==> m1[k] == m0[k]
        &&& m1[name@] matches ConnectionType::Tcp(t) && ConnectionType::made(t, tcp_settings, side, name)
    }
}

/// The connections of a server, by name.
pub struct ConnectionsServer(pub ConnectionTable);

/// The connections of a client, by name.
pub struct ConnectionsClient(pub ConnectionTable);

impl View for ConnectionsServer {
    type V = Map<Seq<char>, ConnectionType>;

    open spec fn view(&self) -> Map<Seq<char>, ConnectionType> {
        self.0@
    }
}

impl View for ConnectionsClient {
    type V = Map<Seq<char>, ConnectionType>;

    open spec fn view(&self) -> Map<Seq<char>, ConnectionType> {
        self.0@
    }
}

/// Makes a TCP connection for side `side` in `table` unless the name is taken.
fn make_in(table: &mut ConnectionTable, tcp_settings: TcpSettings, connection_name: String, side: NetworkSide)
    ensures
        made_connection(old(table)@, final(table)@, tcp_settings, connection_name, side),
{
    if table.contains_key(connection_name.as_str()) {
        return;
    }
    let ghost name = connection_name;
    let c = ConnectionType::new_tcp(tcp_settings, side, connection_name);
    table.insert(c);
    proof {
        assert(final(table)@.dom() =~= old(table)@.dom().insert(name@));
    }
}

impl ConnectionsTrait for ConnectionsServer {
    fn make_tcp_connection(&mut self, tcp_settings: TcpSettings, connection_name: String)
        ensures
            made_connection(old(self)@, final(self)@, tcp_settings, connection_name, NetworkSide::Server),
    {
        make_in(&mut self.0, tcp_settings, connection_name, NetworkSide::Server);
    }

    fn remove_connection(&mut self, connection_name: &str)
        ensures
            final(self)@ == old(self)@.remove(connection_name@),
    {
        let _ = self.0.remove(connection_name);
    }

    fn can_connect(&mut self, connection_name: &str) -> (b: bool)
        ensures
            b == !old(self)@.contains_key(connection_name@),
            final(self)@ == old(self)@,
    {
        !self.0.contains_key(connection_name)
    }
}

impl ConnectionsTrait for ConnectionsClient {
    fn make_tcp_connection(&mut self, tcp_settings: TcpSettings, connection_name: String)
        ensures
            made_connection(old(self)@, final(self)@, tcp_settings, connection_name, NetworkSide::Client),
    {
        make_in(&mut self.0, tcp_settings, connection_name, NetworkSide::Client);
    }

    fn remove_connection(&mut self, connection_name: &str)
        ensures
            final(self)@ == old(self)@.remove(connection_name@),
    {
        let _ = self.0.remove(connection_name);
    }

    fn can_connect(&mut self, connection_name: &str) -> (b: bool)
        ensures
            b == !old(self)@.contains_key(connection_name@),
            final(self)@ == old(self)@,
    {
        !self.0.contains_key(connection_name)
    }
}

impl ConnectionsServer {
    /// No connections.
    pub fn new() -> (c: Self)
        ensures
            c@ == Map::<Seq<char>, ConnectionType>::empty(),
    {
        ConnectionsServer(ConnectionTable::new())
    }

    /// Records that the listener of the connection named `name` is bound.
    pub fn on_listener_bound(&mut self, name: &str)
        ensures
            old(self)@.contains_key(name@) ==> final(self)@ == old(self)@.insert(name@, old(self)@[name@].after_listener_bound()),
            !old(self)@.contains_key(name@) ==> final(self)@ == old(self)@,
    {
        self.0.check_keys();
        match self.0.remove(name) {
            Some(mut c) => {
                c.on_listener_bound();
                self.0.insert(c);
                proof {
                    assert(old(self)@.remove(name@).insert(name@, old(self)@[name@].after_listener_bound())
                        =~= old(self)@.insert(name@, old(self)@[name@].after_listener_bound()));
                }
            },
            None => {
                proof {
                    assert(old(self)@.remove(name@) =~= old(self)@);
                }
            },
        }
    }

    /// Registers a peer that the server of the connection named `name`
    /// accepted; returns its identifier, or `None` when there is no such TCP
    /// connection.
    pub fn register_client(&mut self, name: &str) -> (id: Option<u128>)
        ensures
            old(self)@.contains_key(name@) ==> final(self)@.dom() == old(self)@.dom() && (forall|k: Seq<char>| #[trigger] old(self)@.contains_key(k) && k != name@ ==> final(self)@[k] == old(self)@[k]) && match old(self)@[name@] {
                ConnectionType::Tcp(t0) => id matches Some(i) && final(self)@[name@] matches ConnectionType::Tcp(t1)
                    && is_v4_id(i) && same_but_clients(t0, t1) && t1.clients_connected@ == t0.clients_connected@.insert(
                    i,
                    ClientComponent::accepted(t0.connection_name, i),
                ),
                ConnectionType::Udp(_) => id is None && final(self)@ == old(self)@,
            },
            !old(self)@.contains_key(name@) ==> id is None && final(self)@ == old(self)@,
    {
        self.0.check_keys();
        match self.0.remove(name) {
            Some(mut c) => {
                let id = c.register_client();
                self.0.insert(c);
                proof {
                    assert(final(self)@.dom() =~= old(self)@.dom());
                    if id is None {
                        assert(final(self)@ =~= old(self)@);
                    }
                }
                id
            },
            None => {
                proof {
                    assert(old(self)@.remove(name@) =~= old(self)@);
                }
                None
            },
        }
    }

    /// Marks the peer `id` of the connection named `name` as gone; returns
    /// whether there is such a peer.
    pub fn mark_client_dropped(&mut self, name: &str, id: u128) -> (found: bool)
        ensures
            old(self)@.contains_key(name@) ==> final(self)@.dom() == old(self)@.dom() && (forall|k: Seq<char>| #[trigger] old(self)@.contains_key(k) && k != name@ ==> final(self)@[k] == old(self)@[k]) && match old(self)@[name@] {
                ConnectionType::Tcp(t0) => final(self)@[name@] matches ConnectionType::Tcp(t1) && same_but_clients(t0, t1)
                    && found == t0.clients_connected@.contains_key(id) && (found ==> t1.clients_connected@
                    == t0.clients_connected@.insert(
                    id,
                    ClientComponent { connection_dropped: true, ..t0.clients_connected@[id] },
                )) && (!found ==> t1.clients_connected@ == t0.clients_connected@),
                ConnectionType::Udp(_) => !found && final(self)@ == old(self)@,
            },
            !old(self)@.contains_key(name@) ==> !found && final(self)@ == old(self)@,
    {
        self.0.check_keys();
        match self.0.remove(name) {
            Some(mut c) => {
                let found = c.mark_client_dropped(id);
                self.0.insert(c);
                proof {
                    assert(final(self)@.dom() =~= old(self)@.dom());
                    if c is Udp {
                        assert(final(self)@ =~= old(self)@);
                    }
                }
                found
            },
            None => {
                proof {
                    assert(old(self)@.remove(name@) =~= old(self)@);
                }
                false
            },
        }
    }
}

impl ConnectionsClient {
    /// No connections.
    pub fn new() -> (c: Self)
        ensures
            c@ == Map::<Seq<char>, ConnectionType>::empty(),
    {
        ConnectionsClient(ConnectionTable::new())
    }

    /// The local end of the connection named `name`, once connected.
    pub fn local_client(&self, name: &str) -> (r: Option<&ClientComponent>)
        ensures
            match r {
                Some(c) => self@.contains_key(name@) && (self@[name@] matches ConnectionType::Tcp(t) && t.local_client_connection == Some(*c)),
                None => !(self@.contains_key(name@) && (self@[name@] matches ConnectionType::Tcp(t) && t.local_client_connection is Some)),
            },
    {
        match self.0.get(name) {
            Some(ConnectionType::Tcp(t)) => match &t.local_client_connection {
                Some(c) => Some(c),
                None => None,
            },
            _ => None,
        }
    }

    /// Records the outcome of connecting for the connection named `name`
    /// (see `ConnectionType::on_local_tcp_event`).
    pub fn on_local_tcp_event(&mut self, name: &str, connected: bool) -> (action: LocalTcpAction)
        ensures
            !old(self)@.contains_key(name@) ==> action == LocalTcpAction::Ignored && final(self)@ == old(self)@,
            old(self)@.contains_key(name@) ==> final(self)@.dom() == old(self)@.dom() && (forall|k: Seq<char>| #[trigger] old(self)@.contains_key(k) && k != name@ ==> final(self)@[k] == old(self)@[k])
                && local_tcp_post(old(self)@[name@], final(self)@[name@], connected, action),
    {
        self.0.check_keys();
        match self.0.remove(name) {
            Some(mut c) => {
                let action = c.on_local_tcp_event(connected);
                self.0.insert(c);
                proof {
                    assert(final(self)@.dom() =~= old(self)@.dom());
                }
                action
            },
            None => {
                proof {
                    assert(old(self)@.remove(name@) =~= old(self)@);
                }
                LocalTcpAction::Ignored
            },
        }
    }

    /// Records that the server of the connection named `name` went away.
    pub fn on_server_disconnected(&mut self, name: &str)
        ensures
            old(self)@.contains_key(name@) ==> final(self)@ == old(self)@.insert(name@, old(self)@[name@].after_disconnect()),
            !old(self)@.contains_key(name@) ==> final(self)@ == old(self)@,
    {
        self.0.check_keys();
        match self.0.remove(name) {
            Some(mut c) => {
                c.on_server_disconnected();
                self.0.insert(c);
                proof {
                    assert(old(self)@.remove(name@).insert(name@, old(self)@[name@].after_disconnect())
                        =~= old(self)@.insert(name@, old(self)@[name@].after_disconnect()));
                }
            },
            None => {
                proof {
                    assert(old(self)@.remove(name@) =~= old(self)@);
                }
            },
        }
    }
}

/// Making a connection whose name is taken changes nothing; so making a
/// connection a second time, with any settings, leaves the table as the
/// first making left it.
pub proof fn lemma_make_tcp_connection_idempotent(
    m0: Map<Seq<char>, ConnectionType>,
    m1: Map<Seq<char>, ConnectionType>,
    m2: Map<Seq<char>, ConnectionType>,
    first: TcpSettings,
    second: TcpSettings,
    name: String,
    side: NetworkSide,
)
    requires
        made_connection(m0, m1, first, name, side),
        made_connection(m1, m2, second, name, side),
    ensures
        m2 == m1,
        m1.contains_key(name@),
{
}

/// Making a connection under a free name and removing it again gives back
/// the table as it was; in between, the name cannot be connected again.
pub proof fn lemma_make_then_remove(
    m0: Map<Seq<char>, ConnectionType>,
    m1: Map<Seq<char>, ConnectionType>,
    tcp_settings: TcpSettings,
    name: String,
    side: NetworkSide,
)
    requires
        !m0.contains_key(name@),
        made_connection(m0, m1, tcp_settings, name, side),
    ensures
        m1.contains_key(name@),
        m1.remove(name@) == m0,
        !m1.remove(name@).contains_key(name@),
{
    assert(m1.remove(name@) =~= m0);
}

/// Starting is done once: a started connection cannot start again, starting
/// it again changes nothing and asks nothing of the caller; a TCP connection
/// that could start asks to bind (server) or to connect (client).
pub proof fn lemma_start_once(c: ConnectionType)
    ensures
        c.after_start().after_start() == c.after_start(),
        c.after_start().start_action() == StartAction::Nothing,
        c is Tcp ==> !c.after_start().spec_can_start(),
        c is Tcp ==> (c.spec_can_start() <==> c.start_action() != StartAction::Nothing),
        c.after_start().key() == c.key(),
{
}

/// A TCP connection whose server went away can start again, and starting it
/// asks to connect (client) or to bind (server) with its own settings.
pub proof fn lemma_reconnect_after_disconnect(c: ConnectionType)
    requires
        c matches ConnectionType::Tcp(t),
    ensures
        c.after_disconnect().spec_can_start(),
        c.after_disconnect().key() == c.key(),
        c matches ConnectionType::Tcp(t) && c.after_disconnect().start_action() == (if t.network_side == NetworkSide::Server {
            StartAction::Listen { address: t.tcp_settings.address, port: t.tcp_settings.port }
        } else {
            StartAction::Connect { address: t.tcp_settings.address, port: t.tcp_settings.port, tcp_settings: t.tcp_settings }
        }),
{
}

/// In a TCP connection whose reading tasks can hand messages on, starting to
/// listen returns every registered peer that was not yet listened to (and
/// only those), and afterwards every peer is listened to, each keeping its
/// other fields; the connection's other state is unchanged. The listener's
/// state plays no part.
pub proof fn lemma_start_listening_covers_unread_peers(c0: ConnectionType, c1: ConnectionType, started: Seq<u128>)
    requires
        listen_post(c0, c1, started),
        c0 matches ConnectionType::Tcp(t0) && t0.has_messages_sender,
    ensures
        c0 matches ConnectionType::Tcp(t0) && c1 matches ConnectionType::Tcp(t1) && {
            &&& t1.listener_ready == t0.listener_ready
            &&& t1.started == t0.started
            &&& t1.clients_connected@.dom() == t0.clients_connected@.dom()
            &&& forall|id: u128| #[trigger] t0.clients_connected@.contains_key(id) ==> {
                let a = t0.clients_connected@[id];
                let b = t1.clients_connected@[id];
                &&& b.listening
                &&& b.connection_dropped == a.connection_dropped
                &&& b.connection_name == a.connection_name
                &&& b.uuid == a.uuid
            }
            &&& forall|id: u128| t0.clients_connected@.contains_key(id) && !t0.clients_connected@[id].listening
                ==> #[trigger] started.contains(id)
            &&& forall|id: u128| #[trigger] started.contains(id) ==> t0.clients_connected@.contains_key(id)
                && !t0.clients_connected@[id].listening
        },
{
    if let ConnectionType::Tcp(t0) = c0 {
        crate::client_connection::lemma_listening_view_only_marks(t0.clients_connected@);
    }
}

/// Removing the peers that went away leaves exactly the peers that did not,
/// each as it was, and returns exactly the ones that did; the connection's
/// other state is unchanged. The listener's state plays no part.
pub proof fn lemma_remove_dropped_is_exact(c0: ConnectionType, c1: ConnectionType, removed: Seq<u128>)
    requires
        removed_post(c0, c1, removed),
        c0 is Tcp,
    ensures
        c0 matches ConnectionType::Tcp(t0) && c1 matches ConnectionType::Tcp(t1) && {
            &&& t1.listener_ready == t0.listener_ready
            &&& forall|id: u128| #[trigger] t1.clients_connected@.contains_key(id) <==> (t0.clients_connected@.contains_key(id)
                && !t0.clients_connected@[id].connection_dropped)
            &&& forall|id: u128| #[trigger] t1.clients_connected@.contains_key(id) ==> t1.clients_connected@[id]
                == t0.clients_connected@[id]
            &&& forall|id: u128| #[trigger] removed.contains(id) <==> (t0.clients_connected@.contains_key(id)
                && t0.clients_connected@[id].connection_dropped)
            &&& removed.no_duplicates()
        },
{
}

/// Starting a connection keeps its settings, side and name; so a client
/// connection that started, lost its server and starts again asks to
/// connect to the same address with the same settings as the first time.
pub proof fn lemma_start_keeps_settings(c: ConnectionType)
    ensures
        c matches ConnectionType::Tcp(t0) ==> (c.after_start() matches ConnectionType::Tcp(t1)
            && t1.tcp_settings == t0.tcp_settings && t1.network_side == t0.network_side
            && t1.connection_name == t0.connection_name),
        c matches ConnectionType::Tcp(t0) ==> (c.after_start().after_disconnect() matches ConnectionType::Tcp(t2)
            && t2.tcp_settings == t0.tcp_settings),
        c matches ConnectionType::Tcp(t0) ==> (!t0.started && t0.network_side == NetworkSide::Client ==> c.after_start().after_disconnect().start_action()
            == (StartAction::Connect { address: t0.tcp_settings.address, port: t0.tcp_settings.port, tcp_settings: t0.tcp_settings })),
        c matches ConnectionType::Tcp(t0) ==> (!t0.started && t0.network_side == NetworkSide::Server ==> c.after_start().after_disconnect().start_action()
            == (StartAction::Listen { address: t0.tcp_settings.address, port: t0.tcp_settings.port })),
{
}
} // verus!
