//! Connection management and length-prefixed framing for a small TCP
//! replication layer: the connection tables kept by a server or a client,
//! the lifecycle of each connection, the registry of clients accepted by a
//! server, and the byte layout of the frames exchanged on the wire.

use vstd::prelude::*;

pub mod settings;
pub mod keyed;
pub mod framing;
pub mod float_len;
pub mod tcp_settings_functions;
pub mod client_connection;
pub mod stream_connection;
pub mod connection_table;
pub mod replication_plugin;

verus! {

/// Which end of a connection this process plays.
#[derive(Debug, Clone, Copy, PartialEq, Eq, Structural)]
pub enum NetworkSide {
    Client,
    Server,
}

} // verus!
