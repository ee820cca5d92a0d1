//! The per-frame steps that drive the connections of a server or a client:
//! start what can start, take note of bound listeners and of connecting
//! outcomes, listen to newly accepted peers, and forget peers that went away.
//! Each step returns what the caller has to do with sockets and tasks.

use vstd::prelude::*;
use crate::NetworkSide;
use crate::stream_connection::{
    ConnectionType,
    ConnectionsServer,
    ConnectionsClient,
    StartAction,
    LocalTcpAction,
    listen_post,
    removed_post,
    local_tcp_post,
};
use crate::connection_table::{ConnectionTable, TableOp, OpResult, op_post};
use crate::tcp_settings_functions::{IoErrorKind, is_disconnection, spec_is_disconnection};

verus! {

/// The replication layer for one side of the network.
#[derive(Debug, Clone, Copy, PartialEq, Eq, Structural)]
pub struct ReplicationPlugin {
    pub network_side: NetworkSide,
}

/// The message a client sends once it is connected.
#[derive(Debug)]
pub struct MyMessage {
    pub test: String,
}

/// The text of the greeting a client sends once connected.
pub open spec fn greeting_text() -> Seq<char> {
    "Hi server, itz me client"@
}

/// The greeting a client sends once connected.
pub fn greeting() -> (m: MyMessage)
    ensures
        m.test@ == greeting_text(),
{
    MyMessage { test: String::from_str("Hi server, itz me client") }
}

/// Starts every connection of `table` that can start; returns each
/// connection's name with what the caller must do for it.
fn start_all(table: &mut ConnectionTable) -> (actions: Vec<(String, StartAction)>)
    ensures
        final(table)@.dom() == old(table)@.dom(),
        forall|k: Seq<char>| #[trigger] old(table)@.contains_key(k) ==> final(table)@[k] == old(table)@[k].after_start(),
        forall|j: int| 0 <= j < actions@.len() ==> #[trigger] old(table)@.contains_key(actions@[j].0@)
            && actions@[j].1 == old(table)@[actions@[j].0@].start_action(),
        forall|k: Seq<char>| #[trigger] old(table)@.contains_key(k) ==> exists|j: int| 0 <= j < actions@.len() && #[trigger] actions@[j].0@ == k,
        forall|i: int, j: int| 0 <= i < actions@.len() && 0 <= j < actions@.len() && i != j ==> #[trigger] actions@[i].0@ != #[trigger] actions@[j].0@,
{
    let mut results = table.apply_all(TableOp::Start);
    let ghost rs = results@;
    let ghost before = old(table)@;
    let ghost after = table@;
    let n = results.len();
    let mut actions: Vec<(String, StartAction)> = Vec::new();
    let mut i: usize = 0;
    while i < n
        invariant
            n == rs.len(),
            i <= n,
            results@ == rs.skip(i as int),
            actions@.len() == i,
            forall|j: int| 0 <= j < rs.len() ==> before.contains_key(rs[j].0@) && op_post(TableOp::Start, before[rs[j].0@], after[rs[j].0@], rs[j].1),
            forall|j: int| 0 <= j < i ==> #[trigger] actions@[j].0 == rs[j].0 && rs[j].1 == OpResult::Started(actions@[j].1),
        decreases n - i,
    {
        let (name, r) = results.remove(0);
        proof {
            assert(rs[i as int] == (name, r));
            assert(results@ =~= rs.skip(i + 1));
        }
        let a = match r {
            OpResult::Started(a) => a,
            _ => StartAction::Nothing,
        };
        actions.push((name, a));
        i = i + 1;
    }
    proof {
        assert forall|j: int| 0 <= j < actions@.len() implies #[trigger] old(table)@.contains_key(actions@[j].0@)
            && actions@[j].1 == old(table)@[actions@[j].0@].start_action() by {
            assert(actions@[j].0 == rs[j].0);
        }
        assert forall|k: Seq<char>| #[trigger] old(table)@.contains_key(k) implies exists|j: int| 0 <= j < actions@.len() && #[trigger] actions@[j].0@ == k by {
            let j = choose|j: int| 0 <= j < rs.len() && #[trigger] rs[j].0@ == k;
            assert(actions@[j].0 == rs[j].0);
        }
        assert forall|k: Seq<char>| #[trigger] old(table)@.contains_key(k) implies final(table)@[k] == old(table)@[k].after_start() by {
            let j = choose|j: int| 0 <= j < rs.len() && #[trigger] rs[j].0@ == k;
        }
        assert forall|a: int, b: int| 0 <= a < actions@.len() && 0 <= b < actions@.len() && a != b implies #[trigger] actions@[a].0@ != #[trigger] actions@[b].0@ by {
            assert(actions@[a].0 == rs[a].0);
            assert(actions@[b].0 == rs[b].0);
        }
    }
    actions
}

/// Starts every server connection that can start (see
/// `ConnectionType::after_start`); returns each connection's name with what
/// the caller must do for it (`Nothing` for those that did not start).
pub fn setup_server_connections(connections_server: &mut ConnectionsServer) -> (actions: Vec<(String, StartAction)>)
    ensures
        final(connections_server)@.dom() == old(connections_server)@.dom(),
        forall|k: Seq<char>| #[trigger] old(connections_server)@.contains_key(k) ==> final(connections_server)@[k]
            == old(connections_server)@[k].after_start(),
        forall|j: int| 0 <= j < actions@.len() ==> #[trigger] old(connections_server)@.contains_key(actions@[j].0@)
            && actions@[j].1 == old(connections_server)@[actions@[j].0@].start_action(),
        forall|k: Seq<char>| #[trigger] old(connections_server)@.contains_key(k) ==> exists|j: int| 0 <= j < actions@.len() && #[trigger] actions@[j].0@ == k,
        forall|i: int, j: int| 0 <= i < actions@.len() && 0 <= j < actions@.len() && i != j ==> #[trigger] actions@[i].0@ != #[trigger] actions@[j].0@,
{
    start_all(&mut connections_server.0)
}

/// Starts every client connection that can start, as
/// `setup_server_connections` does for a server.
pub fn setup_client_connections(connections_client: &mut ConnectionsClient) -> (actions: Vec<(String, StartAction)>)
    ensures
        final(connections_client)@.dom() == old(connections_client)@.dom(),
        forall|k: Seq<char>| #[trigger] old(connections_client)@.contains_key(k) ==> final(connections_client)@[k]
            == old(connections_client)@[k].after_start(),
        forall|j: int| 0 <= j < actions@.len() ==> #[trigger] old(connections_client)@.contains_key(actions@[j].0@)
            && actions@[j].1 == old(connections_client)@[actions@[j].0@].start_action(),
        forall|k: Seq<char>| #[trigger] old(connections_client)@.contains_key(k) ==> exists|j: int| 0 <= j < actions@.len() && #[trigger] actions@[j].0@ == k,
        forall|i: int, j: int| 0 <= i < actions@.len() && 0 <= j < actions@.len() && i != j ==> #[trigger] actions@[i].0@ != #[trigger] actions@[j].0@,
{
    start_all(&mut connections_client.0)
}

/// Records that the listener of the server connection `name` is bound.
pub fn listener_connection_stabilized(connections_server: &mut ConnectionsServer, name: &str)
    ensures
        old(connections_server)@.contains_key(name@) ==> final(connections_server)@ == old(connections_server)@.insert(
            name@,
            old(connections_server)@[name@].after_listener_bound(),
        ),
        !old(connections_server)@.contains_key(name@) ==> final(connections_server)@ == old(connections_server)@,
{
    connections_server.on_listener_bound(name);
}

/// `p` holds the name and the identifiers of `r`.
spec fn carries(p: (String, Vec<u128>), r: (String, OpResult)) -> bool {
    p.0 == r.0 && (r.1 == OpResult::Listening(p.1) || r.1 == OpResult::Removed(p.1))
}

/// Applies `op`, which returns identifiers, to every connection of `table`;
/// returns each connection's name with the identifiers returned for it.
fn ids_for_all(table: &mut ConnectionTable, op: TableOp) -> (ids: Vec<(String, Vec<u128>)>)
    requires
        op == TableOp::StartListening || op == TableOp::RemoveDropped,
    ensures
        final(table)@.dom() == old(table)@.dom(),
        forall|j: int| 0 <= j < ids@.len() ==> #[trigger] old(table)@.contains_key(ids@[j].0@),
        op == TableOp::StartListening ==> forall|j: int| 0 <= j < ids@.len() ==> #[trigger] listen_post(old(table)@[ids@[j].0@], final(table)@[ids@[j].0@], ids@[j].1@),
        op == TableOp::RemoveDropped ==> forall|j: int| 0 <= j < ids@.len() ==> #[trigger] removed_post(old(table)@[ids@[j].0@], final(table)@[ids@[j].0@], ids@[j].1@),
        forall|k: Seq<char>| #[trigger] old(table)@.contains_key(k) ==> exists|j: int| 0 <= j < ids@.len() && #[trigger] ids@[j].0@ == k,
        forall|i: int, j: int| 0 <= i < ids@.len() && 0 <= j < ids@.len() && i != j ==> #[trigger] ids@[i].0@ != #[trigger] ids@[j].0@,
{
    let mut results = table.apply_all(op);
    let ghost rs = results@;
    let ghost before = old(table)@;
    let ghost after = table@;
    let n = results.len();
    let mut ids: Vec<(String, Vec<u128>)> = Vec::new();
    let mut i: usize = 0;
    while i < n
        invariant
            op == TableOp::StartListening || op == TableOp::RemoveDropped,
            n == rs.len(),
            i <= n,
            results@ == rs.skip(i as int),
            ids@.len() == i,
            forall|j: int| 0 <= j < rs.len() ==> before.contains_key(rs[j].0@) && op_post(op, before[rs[j].0@], after[rs[j].0@], rs[j].1),
            forall|j: int| 0 <= j < i ==> carries(#[trigger] ids@[j], rs[j]),
        decreases n - i,
    {
        let (name, r) = results.remove(0);
        proof {
            assert(rs[i as int] == (name, r));
            assert(results@ =~= rs.skip(i + 1));
        }
        proof {
            assert(before.contains_key(rs[i as int].0@) && op_post(op, before[rs[i as int].0@], after[rs[i as int].0@], rs[i as int].1));
        }
        let v = match r {
            OpResult::Listening(v) => v,
            OpResult::Removed(v) => v,
            OpResult::Started(_) => Vec::new(),
        };
        let ghost prev = ids@;
        ids.push((name, v));
        proof {
            assert(carries(ids@[i as int], rs[i as int]));
            assert forall|j: int| 0 <= j < i + 1 implies carries(#[trigger] ids@[j], rs[j]) by {
                if j < i {
                    assert(ids@[j] == prev[j]);
                }
            }
        }
        i = i + 1;
    }
    proof {
        assert forall|j: int| 0 <= j < ids@.len() implies #[trigger] old(table)@.contains_key(ids@[j].0@) && (
            if op == TableOp::StartListening {
                listen_post(old(table)@[ids@[j].0@], final(table)@[ids@[j].0@], ids@[j].1@)
            } else {
                removed_post(old(table)@[ids@[j].0@], final(table)@[ids@[j].0@], ids@[j].1@)
            }) by {
            assert(carries(ids@[j], rs[j]));
        }
        assert(op == TableOp::StartListening ==> forall|j: int| 0 <= j < ids@.len() ==> #[trigger] listen_post(old(table)@[ids@[j].0@], final(table)@[ids@[j].0@], ids@[j].1@));
        assert(op == TableOp::RemoveDropped ==> forall|j: int| 0 <= j < ids@.len() ==> #[trigger] removed_post(old(table)@[ids@[j].0@], final(table)@[ids@[j].0@], ids@[j].1@));
        assert forall|k: Seq<char>| #[trigger] old(table)@.contains_key(k) implies exists|j: int| 0 <= j < ids@.len() && #[trigger] ids@[j].0@ == k by {
            let j = choose|j: int| 0 <= j < rs.len() && #[trigger] rs[j].0@ == k;
            assert(carries(ids@[j], rs[j]));
        }
        assert forall|a: int, b: int| 0 <= a < ids@.len() && 0 <= b < ids@.len() && a != b implies #[trigger] ids@[a].0@ != #[trigger] ids@[b].0@ by {
            assert(carries(ids@[a], rs[a]));
            assert(carries(ids@[b], rs[b]));
        }
    }
    ids
}

/// In every server connection whose reading tasks can hand messages on,
/// marks the peers not yet read as listened to; returns, per connection,
/// the peers for which the caller starts a reading task.
pub fn start_listening_clients(connections_server: &mut ConnectionsServer) -> (ids: Vec<(String, Vec<u128>)>)
    ensures
        final(connections_server)@.dom() == old(connections_server)@.dom(),
        forall|j: int| 0 <= j < ids@.len() ==> old(connections_server)@.contains_key(ids@[j].0@) && #[trigger] listen_post(
            old(connections_server)@[ids@[j].0@],
            final(connections_server)@[ids@[j].0@],
            ids@[j].1@,
        ),
        forall|k: Seq<char>| #[trigger] old(connections_server)@.contains_key(k) ==> exists|j: int| 0 <= j < ids@.len() && #[trigger] ids@[j].0@ == k,
        forall|i: int, j: int| 0 <= i < ids@.len() && 0 <= j < ids@.len() && i != j ==> #[trigger] ids@[i].0@ != #[trigger] ids@[j].0@,
{
    ids_for_all(&mut connections_server.0, TableOp::StartListening)
}

/// Removes, in every server connection, the peers that went away; returns,
/// per connection, the removed peers, whose sockets the caller drops.
pub fn check_clients_disconnected(connections_server: &mut ConnectionsServer) -> (ids: Vec<(String, Vec<u128>)>)
    ensures
        final(connections_server)@.dom() == old(connections_server)@.dom(),
        forall|j: int| 0 <= j < ids@.len() ==> old(connections_server)@.contains_key(ids@[j].0@) && #[trigger] removed_post(
            old(connections_server)@[ids@[j].0@],
            final(connections_server)@[ids@[j].0@],
            ids@[j].1@,
        ),
        forall|k: Seq<char>| #[trigger] old(connections_server)@.contains_key(k) ==> exists|j: int| 0 <= j < ids@.len() && #[trigger] ids@[j].0@ == k,
        forall|i: int, j: int| 0 <= i < ids@.len() && 0 <= j < ids@.len() && i != j ==> #[trigger] ids@[i].0@ != #[trigger] ids@[j].0@,
{
    ids_for_all(&mut connections_server.0, TableOp::RemoveDropped)
}

/// Records the outcome of connecting for the client connection `name`; on
/// success the caller sends the greeting through the new local end.
pub fn client_tcp_connected(connections_client: &mut ConnectionsClient, name: &str, connected: bool) -> (action: LocalTcpAction)
    ensures
        !old(connections_client)@.contains_key(name@) ==> action == LocalTcpAction::Ignored && final(connections_client)@
            == old(connections_client)@,
        old(connections_client)@.contains_key(name@) ==> final(connections_client)@.dom() == old(connections_client)@.dom()
            && (forall|k: Seq<char>| #[trigger] old(connections_client)@.contains_key(k) && k != name@ ==> final(connections_client)@[k]
                == old(connections_client)@[k])
            && local_tcp_post(old(connections_client)@[name@], final(connections_client)@[name@], connected, action),
{
    let action = connections_client.on_local_tcp_event(name, connected);
    action
}

/// Decides what a client does when reading from its server failed with
/// `kind`: if the server went away (end of stream, reset, broken pipe) the
/// connection `name` is no longer started, so it reconnects when next
/// started, and reading stops (`true`); otherwise reading goes on (`false`)
/// and nothing changes.
pub fn client_read_failed(connections_client: &mut ConnectionsClient, name: &str, kind: IoErrorKind) -> (stop: bool)
    ensures
        stop == spec_is_disconnection(kind),
        stop && old(connections_client)@.contains_key(name@) ==> final(connections_client)@ == old(connections_client)@.insert(
            name@,
            old(connections_client)@[name@].after_disconnect(),
        ),
        !(stop && old(connections_client)@.contains_key(name@)) ==> final(connections_client)@ == old(connections_client)@,
{
    if is_disconnection(kind) {
        connections_client.on_server_disconnected(name);
        true
    } else {
        false
    }
}

} // verus!
