//! The length prefix of a frame as `TcpSettings` lay it out: which number
//! carries the length, in which byte order, and what a received prefix
//! announces. The bytes come from and go to the socket outside this crate.

use vstd::prelude::*;
use crate::settings::{BytesOptions, OrderOptions, TcpSettings};
use crate::framing::{
    order_value,
    be_value,
    decode_uint,
    encode_uint,
    lemma_byte_bound_values,
    lemma_order_value_injective,
};
use crate::float_len::{
    FloatFormat,
    truncated_length,
    rounded_float_bits,
    round_to_digits,
    float_bits_to_length,
    length_to_float_bits,
    lemma_float_length_roundtrip,
};
use vstd::arithmetic::power2::lemma2_to64;

verus! {

/// Why a length prefix could not be read or written.
#[derive(Debug, Clone, Copy, PartialEq, Eq, Structural)]
pub enum FrameError {
    /// The settings name a number kind that carries no length.
    NotImplemented,
}

/// The kind of failure a socket read reported.
#[derive(Debug, Clone, Copy, PartialEq, Eq, Structural)]
pub enum IoErrorKind {
    UnexpectedEof,
    ConnectionReset,
    BrokenPipe,
    Other,
}

/// The number kinds that can carry a frame length.
pub open spec fn supported(b: BytesOptions) -> bool {
    b == BytesOptions::U32 || b == BytesOptions::U64 || b == BytesOptions::F32 || b
        == BytesOptions::F64
}

/// Size in bytes of the length prefix of kind `b`.
pub open spec fn spec_header_width(b: BytesOptions) -> nat {
    match b {
        BytesOptions::U32 | BytesOptions::F32 => 4,
        BytesOptions::U64 | BytesOptions::F64 => 8,
        _ => 0,
    }
}

/// The number a prefix of kind `b` carries for a body of `len` bytes: the
/// length truncated to 32 bits for `U32`, the length for `U64`, and the bit
/// pattern of the length converted to the float type for `F32` and `F64`.
pub open spec fn wire_number(len: nat, b: BytesOptions) -> nat {
    match b {
        BytesOptions::U32 => len % 0x1_0000_0000,
        BytesOptions::U64 => len,
        BytesOptions::F32 => rounded_float_bits(len, FloatFormat::Single),
        BytesOptions::F64 => rounded_float_bits(len, FloatFormat::Double),
        _ => 0,
    }
}

/// The body length that the number `w` of a prefix of kind `b` announces.
pub open spec fn announced_length(w: nat, b: BytesOptions) -> nat {
    match b {
        BytesOptions::F32 => truncated_length(w, FloatFormat::Single),
        BytesOptions::F64 => truncated_length(w, FloatFormat::Double),
        _ => w,
    }
}

/// A read failure that means the peer went away.
pub open spec fn spec_is_disconnection(kind: IoErrorKind) -> bool {
    kind == IoErrorKind::UnexpectedEof || kind == IoErrorKind::ConnectionReset || kind
        == IoErrorKind::BrokenPipe
}

/// Whether a failed read means the peer went away (end of stream, reset
/// connection or broken pipe); other failures leave the connection up.
pub fn is_disconnection(kind: IoErrorKind) -> (b: bool)
    ensures
        b == spec_is_disconnection(kind),
{
    match kind {
        IoErrorKind::UnexpectedEof | IoErrorKind::ConnectionReset | IoErrorKind::BrokenPipe => true,
        IoErrorKind::Other => false,
    }
}

/// How many bytes the length prefix of kind `bytes` takes on the wire, or
/// `None` for a kind that carries no length.
pub fn header_width(bytes: BytesOptions) -> (w: Option<usize>)
    ensures
        supported(bytes) ==> w == Some(spec_header_width(bytes) as usize),
        !supported(bytes) ==> w is None,
{
    match bytes {
        BytesOptions::U32 | BytesOptions::F32 => Some(4),
        BytesOptions::U64 | BytesOptions::F64 => Some(8),
        _ => None,
    }
}

/// The `u32` that four received bytes hold in byte order `order`.
pub fn read_u32(header: &[u8], order: &OrderOptions) -> (v: u32)
    requires
        header@.len() == 4,
    ensures
        v as nat == order_value(header@, *order),
{
    proof {
        crate::framing::lemma_le_value_bound(header@);
        crate::framing::lemma_be_value_bound(header@);
        lemma_byte_bound_values();
    }
    let v = decode_uint(header, *order);
    v as u32
}

/// The bit pattern of the `f32` that four received bytes hold in byte order `order`.
pub fn read_f32(header: &[u8], order: &OrderOptions) -> (bits: u32)
    requires
        header@.len() == 4,
    ensures
        bits as nat == order_value(header@, *order),
{
    read_u32(header, order)
}

/// The `u64` that eight received bytes hold in byte order `order`.
pub fn read_u64(header: &[u8], order: &OrderOptions) -> (v: u64)
    requires
        header@.len() == 8,
    ensures
        v as nat == order_value(header@, *order),
{
    decode_uint(header, *order)
}

/// The bit pattern of the `f64` that eight received bytes hold in byte order `order`.
pub fn read_f64(header: &[u8], order: &OrderOptions) -> (bits: u64)
    requires
        header@.len() == 8,
    ensures
        bits as nat == order_value(header@, *order),
{
    read_u64(header, order)
}

/// The four bytes that carry `length` in byte order `order`.
pub fn write_u32(length: u32, order: &OrderOptions) -> (bytes: Vec<u8>)
    ensures
        bytes@.len() == 4,
        order_value(bytes@, *order) == length,
{
    proof {
        lemma_byte_bound_values();
    }
    encode_uint(length as u64, 4, *order)
}

/// The four bytes that carry the `f32` with bit pattern `bits` in byte order `order`.
pub fn write_f32(bits: u32, order: &OrderOptions) -> (bytes: Vec<u8>)
    ensures
        bytes@.len() == 4,
        order_value(bytes@, *order) == bits,
{
    write_u32(bits, order)
}

/// The eight bytes that carry `length` in byte order `order`.
pub fn write_u64(length: u64, order: &OrderOptions) -> (bytes: Vec<u8>)
    ensures
        bytes@.len() == 8,
        order_value(bytes@, *order) == length,
{
    proof {
        lemma_byte_bound_values();
    }
    encode_uint(length, 8, *order)
}

/// The eight bytes that carry the `f64` with bit pattern `bits` in byte order `order`.
pub fn write_f64(bits: u64, order: &OrderOptions) -> (bytes: Vec<u8>)
    ensures
        bytes@.len() == 8,
        order_value(bytes@, *order) == bits,
{
    write_u64(bits, order)
}

/// The body length that a received length prefix announces under
/// `tcp_settings`; `header` holds the prefix's bytes (as many as
/// `header_width` gives). A number kind that carries no length is refused
/// with `NotImplemented`. A float length is truncated toward zero, with NaN
/// and negative values read as 0.
pub fn read_value_from_settings(header: &[u8], tcp_settings: &TcpSettings) -> (r: Result<u64, FrameError>)
    requires
        supported(tcp_settings.bytes) ==> header@.len() == spec_header_width(tcp_settings.bytes),
    ensures
        supported(tcp_settings.bytes) ==> r == Ok::<u64, FrameError>(
            announced_length(order_value(header@, tcp_settings.order), tcp_settings.bytes) as u64,
        ),
        !supported(tcp_settings.bytes) ==> r == Err::<u64, FrameError>(FrameError::NotImplemented),
{
    match tcp_settings.bytes {
        BytesOptions::U32 => Ok(read_u32(header, &tcp_settings.order) as u64),
        BytesOptions::U64 => Ok(read_u64(header, &tcp_settings.order)),
        BytesOptions::F32 => {
            let bits = read_f32(header, &tcp_settings.order);
            Ok(float_bits_to_length(bits as u64, FloatFormat::Single))
        },
        BytesOptions::F64 => {
            let bits = read_f64(header, &tcp_settings.order);
            Ok(float_bits_to_length(bits, FloatFormat::Double))
        },
        _ => Err(FrameError::NotImplemented),
    }
}

/// The length prefix for a body of `length` bytes under `tcp_settings`. A
/// `U32` prefix carries the length truncated to 32 bits; a float prefix
/// carries the length rounded to the nearest float. A number kind that
/// carries no length is refused with `NotImplemented`.
pub fn write_value_from_settings(length: usize, tcp_settings: &TcpSettings) -> (r: Result<Vec<u8>, FrameError>)
    ensures
        supported(tcp_settings.bytes) ==> (r matches Ok(h) && h@.len() == spec_header_width(tcp_settings.bytes)
            && order_value(h@, tcp_settings.order) == wire_number(length as nat, tcp_settings.bytes)),
        !supported(tcp_settings.bytes) ==> r == Err::<Vec<u8>, FrameError>(FrameError::NotImplemented),
{
    let len = length as u64;
    match tcp_settings.bytes {
        BytesOptions::U32 => Ok(write_u32((len % 0x1_0000_0000) as u32, &tcp_settings.order)),
        BytesOptions::U64 => Ok(write_u64(len, &tcp_settings.order)),
        BytesOptions::F32 => {
            let bits = length_to_float_bits(len, FloatFormat::Single);
            proof {
                lemma2_to64();
            }
            Ok(write_f32(bits as u32, &tcp_settings.order))
        },
        BytesOptions::F64 => {
            let bits = length_to_float_bits(len, FloatFormat::Double);
            Ok(write_f64(bits, &tcp_settings.order))
        },
        _ => Err(FrameError::NotImplemented),
    }
}

/// The frame a peer sends for an encoded message: the body length as a
/// big-endian `u32` (truncated to 32 bits), then the body.
pub fn frame_message(payload: &Vec<u8>) -> (frame: Vec<u8>)
    requires
        payload@.len() + 4 <= usize::MAX,
    ensures
        frame@.len() == payload@.len() + 4,
        be_value(frame@.subrange(0, 4)) == payload@.len() % 0x1_0000_0000,
        frame@.subrange(4, frame@.len() as int) == payload@,
{
    let n = payload.len();
    let mut frame = write_u32((n as u64 % 0x1_0000_0000) as u32, &OrderOptions::BigEndian);
    let mut i: usize = 0;
    assert(frame@.subrange(0, 4) =~= frame@);
    assert(frame@.subrange(4, 4) =~= payload@.subrange(0, 0));
    while i < n
        invariant
            n == payload@.len(),
            n + 4 <= usize::MAX,
            i <= n,
            frame@.len() == 4 + i,
            be_value(frame@.subrange(0, 4)) == (n as nat) % 0x1_0000_0000,
            frame@.subrange(4, 4 + i) == payload@.subrange(0, i as int),
        decreases n - i,
    {
        let ghost before = frame@;
        frame.push(payload[i]);
        proof {
            assert(frame@.subrange(0, 4) =~= before.subrange(0, 4));
            assert(frame@.subrange(4, 4 + i + 1) =~= payload@.subrange(0, i + 1));
        }
        i = i + 1;
    }
    proof {
        assert(frame@.subrange(0, 4) =~= frame@.subrange(0, 4));
        assert(payload@.subrange(0, n as int) =~= payload@);
    }
    frame
}

/// A length prefix written for a body of `length` bytes and read back
/// announces `length` itself for `U64`, `length` modulo `2^32` for `U32`,
/// and `length` rounded to the float's precision (at most `u64::MAX`) for
/// `F32` and `F64`, which is `length` itself below `2^24` and `2^53`.
pub proof fn lemma_length_prefix_roundtrip(length: usize, tcp_settings: TcpSettings, header: Seq<u8>)
    requires
        supported(tcp_settings.bytes),
        header.len() == spec_header_width(tcp_settings.bytes),
        order_value(header, tcp_settings.order) == wire_number(length as nat, tcp_settings.bytes),
    ensures
        tcp_settings.bytes == BytesOptions::U32 ==> announced_length(order_value(header, tcp_settings.order), tcp_settings.bytes)
            == (length as nat) % 0x1_0000_0000,
        tcp_settings.bytes == BytesOptions::U64 ==> announced_length(order_value(header, tcp_settings.order), tcp_settings.bytes)
            == length,
        tcp_settings.bytes == BytesOptions::F32 ==> announced_length(order_value(header, tcp_settings.order), tcp_settings.bytes)
            == if round_to_digits(length as nat, 24) > u64::MAX { u64::MAX as nat } else { round_to_digits(length as nat, 24) },
        tcp_settings.bytes == BytesOptions::F64 ==> announced_length(order_value(header, tcp_settings.order), tcp_settings.bytes)
            == if round_to_digits(length as nat, 53) > u64::MAX { u64::MAX as nat } else { round_to_digits(length as nat, 53) },
        tcp_settings.bytes == BytesOptions::F32 && length < 0x100_0000 ==> announced_length(
            order_value(header, tcp_settings.order), tcp_settings.bytes) == length,
        tcp_settings.bytes == BytesOptions::F64 && length < 0x20_0000_0000_0000 ==> announced_length(
            order_value(header, tcp_settings.order), tcp_settings.bytes) == length,
{
    lemma2_to64();
    vstd::arithmetic::power2::lemma2_to64_rest();
    lemma_float_length_roundtrip(length as u64, FloatFormat::Single);
    lemma_float_length_roundtrip(length as u64, FloatFormat::Double);
}

/// A length prefix is fixed by the number it carries: two prefixes of one
/// kind and byte order that carry the same number are the same bytes.
pub proof fn lemma_length_prefix_unique(tcp_settings: TcpSettings, h1: Seq<u8>, h2: Seq<u8>)
    requires
        h1.len() == spec_header_width(tcp_settings.bytes),
        h2.len() == spec_header_width(tcp_settings.bytes),
        order_value(h1, tcp_settings.order) == order_value(h2, tcp_settings.order),
    ensures
        h1 == h2,
{
    lemma_order_value_injective(h1, h2, tcp_settings.order);
}


/// A peer that reads the length of a frame as a big-endian `u32` prefix
/// learns the frame's body length (modulo `2^32`) and finds the body right
/// after the prefix.
pub proof fn lemma_frame_roundtrip(frame: Seq<u8>, payload: Seq<u8>, tcp_settings: TcpSettings)
    requires
        frame.len() == payload.len() + 4,
        be_value(frame.subrange(0, 4)) == payload.len() % 0x1_0000_0000,
        frame.subrange(4, frame.len() as int) == payload,
        tcp_settings.bytes == BytesOptions::U32,
        tcp_settings.order == OrderOptions::BigEndian,
    ensures
        spec_header_width(tcp_settings.bytes) == 4,
        announced_length(order_value(frame.subrange(0, 4), tcp_settings.order), tcp_settings.bytes) == payload.len()
            % 0x1_0000_0000,
        payload.len() < 0x1_0000_0000 ==> frame.subrange(4, 4 + announced_length(
            order_value(frame.subrange(0, 4), tcp_settings.order),
            tcp_settings.bytes,
        ) as int) == payload,
{
}
} // verus!
