use shared::NetworkSide;
use shared::settings::{BytesOptions, IpAddress, OrderOptions, TcpSettings};
use shared::client_connection::{ClientComponent, ClientRegistry, ReadStep, ServerReadEvent};
use shared::stream_connection::{
    ConnectionTrait, ConnectionType, ConnectionsClient, ConnectionsServer, ConnectionsTrait,
    LocalTcpAction, StartAction,
};
use shared::replication_plugin::{
    check_clients_disconnected, client_read_failed, client_tcp_connected, greeting,
    listener_connection_stabilized, setup_client_connections, setup_server_connections,
    start_listening_clients, MyMessage, ReplicationPlugin,
};
use shared::tcp_settings_functions::IoErrorKind;

fn lobby_settings() -> TcpSettings {
    TcpSettings {
        address: IpAddress::V4([127, 0, 0, 1]),
        port: 8080,
        bytes: BytesOptions::U32,
        order: OrderOptions::BigEndian,
    }
}

fn tcp(c: &ConnectionType) -> &shared::stream_connection::TcpState {
    match c {
        ConnectionType::Tcp(t) => t,
        ConnectionType::Udp(_) => panic!("expected a TCP connection"),
    }
}

#[test]
fn make_connection_once_per_name() {
    let mut server = ConnectionsServer::new();
    assert!(server.can_connect("Lobby"));
    server.make_tcp_connection(lobby_settings(), "Lobby".to_string());
    assert!(!server.can_connect("Lobby"));
    let c = server.0.get("Lobby").unwrap();
    let t = tcp(c);
    assert!(!t.started);
    assert_eq!(t.network_side, NetworkSide::Server);
    assert_eq!(t.connection_name, "Lobby");
    assert_eq!(t.tcp_settings, lobby_settings());
    // a second making under the same name changes nothing
    let mut other = lobby_settings();
    other.port = 9000;
    server.make_tcp_connection(other, "Lobby".to_string());
    assert_eq!(tcp(server.0.get("Lobby").unwrap()).tcp_settings.port, 8080);
    server.remove_connection("Lobby");
    assert!(server.can_connect("Lobby"));
    assert!(server.0.get("Lobby").is_none());
    // removing what is not there is harmless
    server.remove_connection("Lobby");
    assert!(server.can_connect("Lobby"));
}

#[test]
fn client_connections_are_client_side() {
    let mut client = ConnectionsClient::new();
    client.make_tcp_connection(lobby_settings(), "Lobby".to_string());
    client.make_tcp_connection(lobby_settings(), "Arena".to_string());
    assert_eq!(tcp(client.0.get("Lobby").unwrap()).network_side, NetworkSide::Client);
    assert!(!client.can_connect("Arena"));
    assert!(client.can_connect("Other"));
}

#[test]
fn server_start_asks_to_listen_once() {
    let mut server = ConnectionsServer::new();
    server.make_tcp_connection(lobby_settings(), "Lobby".to_string());
    let actions = setup_server_connections(&mut server);
    assert_eq!(actions.len(), 1);
    assert_eq!(actions[0].0, "Lobby");
    assert_eq!(actions[0].1, StartAction::Listen { address: IpAddress::V4([127, 0, 0, 1]), port: 8080 });
    let t = tcp(server.0.get("Lobby").unwrap());
    assert!(t.started && t.awaiting_listener && t.has_messages_sender && t.awaiting_clients && t.runtime_running);
    assert!(!t.listener_ready);
    // already started: nothing more to do
    let again = setup_server_connections(&mut server);
    assert_eq!(again.len(), 1);
    assert_eq!(again[0].1, StartAction::Nothing);
    listener_connection_stabilized(&mut server, "Lobby");
    assert!(tcp(server.0.get("Lobby").unwrap()).listener_ready);
}

#[test]
fn connection_trait_start_and_can_start() {
    let mut c = ConnectionType::new_tcp(lobby_settings(), NetworkSide::Client, "Lobby".to_string());
    assert!(c.can_start());
    let a = c.start();
    assert_eq!(a, StartAction::Connect { address: IpAddress::V4([127, 0, 0, 1]), port: 8080, tcp_settings: lobby_settings() });
    assert!(!c.can_start());
    assert_eq!(c.start(), StartAction::Nothing);
    assert!(tcp(&c).awaiting_local_tcp);
}

#[test]
fn client_connects_greets_and_reconnects() {
    let mut client = ConnectionsClient::new();
    client.make_tcp_connection(lobby_settings(), "Lobby".to_string());
    // nothing to learn before starting
    assert_eq!(client_tcp_connected(&mut client, "Lobby", true), LocalTcpAction::Ignored);
    let actions = setup_client_connections(&mut client);
    assert!(matches!(actions[0].1, StartAction::Connect { port: 8080, .. }));
    assert_eq!(client_tcp_connected(&mut client, "Lobby", true), LocalTcpAction::SendGreeting);
    let local = client.local_client("Lobby").unwrap();
    assert_eq!(local.network_side, NetworkSide::Client);
    assert!(local.listening);
    assert!(!local.connection_dropped);
    assert_eq!(local.connection_name, "Lobby");
    assert_eq!((local.uuid >> 76) & 0xf, 4);
    assert_eq!((local.uuid >> 62) & 0x3, 2);
    let frame = local.send_message_server(&vec![1, 2]);
    assert_eq!(frame, vec![0, 0, 0, 2, 1, 2]);
    // a second outcome is ignored once connected
    assert_eq!(client_tcp_connected(&mut client, "Lobby", false), LocalTcpAction::Ignored);
    // a read failure that is not a disconnection keeps reading
    assert!(!client_read_failed(&mut client, "Lobby", IoErrorKind::Other));
    assert!(tcp(client.0.get("Lobby").unwrap()).started);
    // the server went away: the connection can start again
    assert!(client_read_failed(&mut client, "Lobby", IoErrorKind::ConnectionReset));
    assert!(!tcp(client.0.get("Lobby").unwrap()).started);
    let again = setup_client_connections(&mut client);
    assert!(matches!(again[0].1, StartAction::Connect { .. }));
}

#[test]
fn failed_connect_allows_retry() {
    let mut client = ConnectionsClient::new();
    client.make_tcp_connection(lobby_settings(), "Lobby".to_string());
    setup_client_connections(&mut client);
    assert_eq!(client_tcp_connected(&mut client, "Lobby", false), LocalTcpAction::Retry);
    assert!(!tcp(client.0.get("Lobby").unwrap()).started);
    assert!(client.local_client("Lobby").is_none());
    assert_eq!(client_tcp_connected(&mut client, "Nowhere", true), LocalTcpAction::Ignored);
}

#[test]
fn server_registers_listens_and_forgets_peers() {
    let mut server = ConnectionsServer::new();
    server.make_tcp_connection(lobby_settings(), "Lobby".to_string());
    // before starting no reading task can hand messages on
    let a = server.register_client("Lobby").unwrap();
    let none = start_listening_clients(&mut server);
    assert_eq!(none.len(), 1);
    assert!(none[0].1.is_empty());
    setup_server_connections(&mut server);
    let b = server.register_client("Lobby").unwrap();
    for id in [a, b] {
        assert_eq!((id >> 76) & 0xf, 4);
        assert_eq!((id >> 62) & 0x3, 2);
    }
    assert!(server.register_client("Nowhere").is_none());
    let started = start_listening_clients(&mut server);
    assert_eq!(started.len(), 1);
    let mut ids = started[0].1.clone();
    ids.sort();
    let mut expect = vec![a, b];
    expect.sort();
    assert_eq!(ids, expect);
    let again = start_listening_clients(&mut server);
    assert!(again[0].1.is_empty());
    assert!(server.mark_client_dropped("Lobby", a));
    assert!(!server.mark_client_dropped("Lobby", a ^ 1 ^ b ^ b ^ 1 ^ 0x55));
    let removed = check_clients_disconnected(&mut server);
    assert_eq!(removed[0].1, vec![a]);
    let t = tcp(server.0.get("Lobby").unwrap());
    assert!(!t.clients_connected.contains(a));
    assert!(t.clients_connected.contains(b));
    assert!(t.clients_connected.get(b).unwrap().listening);
}

#[test]
fn fresh_identifiers_are_version_4() {
    let mut reg = ClientRegistry::new();
    let id = reg.register("Lobby".to_string());
    assert_eq!((id >> 76) & 0xf, 4);
    assert_eq!((id >> 62) & 0x3, 2);
    let c = reg.get(id).unwrap();
    assert_eq!(c.uuid, id);
    assert_eq!(c.network_side, NetworkSide::Server);
    assert!(!c.listening && !c.connection_dropped);
    assert!(reg.remove(id));
    assert!(!reg.contains(id));
    assert!(!reg.remove(id));
}

#[test]
fn registry_insert_replaces_same_identifier() {
    let mut reg = ClientRegistry::new();
    let c = ClientComponent {
        connection_name: "Lobby".to_string(),
        network_side: NetworkSide::Server,
        listening: false,
        connection_dropped: false,
        uuid: 7,
    };
    reg.insert(c);
    reg.insert(ClientComponent { connection_name: "Arena".to_string(), network_side: NetworkSide::Server, listening: true, connection_dropped: false, uuid: 7 });
    assert_eq!(reg.get(7).unwrap().connection_name, "Arena");
    assert_eq!(reg.start_listening_all(), Vec::<u128>::new());
    assert!(reg.mark_dropped(7));
    assert!(!reg.mark_dropped(8));
    assert_eq!(reg.remove_dropped(), vec![7]);
    assert!(reg.get(7).is_none());
}

#[test]
fn server_read_steps() {
    let mut c = ClientComponent {
        connection_name: "Lobby".to_string(),
        network_side: NetworkSide::Server,
        listening: false,
        connection_dropped: false,
        uuid: 1,
    };
    c.start_listening_client();
    assert!(c.listening);
    assert_eq!(c.on_server_read(ServerReadEvent::BodyRead { length: 12 }), ReadStep::Deliver);
    assert_eq!(c.on_server_read(ServerReadEvent::BodyFailed), ReadStep::Continue);
    assert!(!c.connection_dropped);
    assert_eq!(c.on_server_read(ServerReadEvent::BodyRead { length: 0 }), ReadStep::Stop);
    assert!(c.connection_dropped);
    let mut d = ClientComponent { connection_dropped: false, uuid: 2, ..c };
    assert_eq!(d.on_server_read(ServerReadEvent::HeaderFailed), ReadStep::Stop);
    assert!(d.connection_dropped);
    let mut e = ClientComponent { connection_dropped: false, uuid: 3, ..d };
    assert_eq!(e.on_server_read(ServerReadEvent::ReaderGone), ReadStep::Stop);
    let frame = e.send_client_message(&vec![5]);
    assert_eq!(frame, vec![0, 0, 0, 1, 5]);
}

#[test]
fn greeting_and_plugin() {
    let m: MyMessage = greeting();
    assert_eq!(m.test, "Hi server, itz me client");
    let p = ReplicationPlugin { network_side: NetworkSide::Server };
    assert_eq!(p, ReplicationPlugin { network_side: NetworkSide::Server });
    assert_ne!(p, ReplicationPlugin { network_side: NetworkSide::Client });
}
