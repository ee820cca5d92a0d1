//! Settings of a TCP connection: where to bind or connect, and how the
//! length of each frame is written on the wire.

use vstd::prelude::*;

verus! {

/// The kind of number that carries the body length in front of a frame.
#[derive(Debug, Clone, Copy, PartialEq, Eq, Structural)]
pub enum BytesOptions {
    // unsigned
    U8,
    U16,
    U32,
    U64,
    U128,
    // signed
    I8,
    I16,
    I32,
    I64,
    I128,
    // floating point
    F32,
    F64,
}

/// Byte order of the length prefix.
#[derive(Debug, Clone, Copy, PartialEq, Eq, Structural)]
pub enum OrderOptions {
    LittleEndian,
    BigEndian,
}

/// An IP address held as plain numbers.
#[derive(Debug, Clone, Copy, PartialEq, Eq)]
pub enum IpAddress {
    V4([u8; 4]),
    V6([u16; 8]),
}

/// Where a connection binds (server) or connects (client), and how its
/// length prefixes are laid out.
#[derive(Debug, Clone, Copy, PartialEq, Eq)]
pub struct TcpSettings {
    pub address: IpAddress,
    pub port: u16,
    pub bytes: BytesOptions,
    pub order: OrderOptions,
}

impl TcpSettings {
    /// The settings `default` gives: 127.0.0.1, port 0, a little-endian `u32` prefix.
    pub open spec fn spec_default() -> TcpSettings {
        TcpSettings {
            address: IpAddress::V4([127u8, 0u8, 0u8, 1u8]),
            port: 0,
            bytes: BytesOptions::U32,
            order: OrderOptions::LittleEndian,
        }
    }
}

impl Default for TcpSettings {
    fn default() -> (s: Self)
        ensures
            s == TcpSettings::spec_default(),
    {
        TcpSettings {
            address: IpAddress::V4([127u8, 0u8, 0u8, 1u8]),
            port: 0,
            bytes: BytesOptions::U32,
            order: OrderOptions::LittleEndian,
        }
    }
}

} // verus!
