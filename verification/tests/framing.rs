use shared::settings::{BytesOptions, IpAddress, OrderOptions, TcpSettings};
use shared::tcp_settings_functions::{
    frame_message, header_width, is_disconnection, read_f32, read_f64, read_u32, read_u64,
    read_value_from_settings, write_f32, write_f64, write_u32, write_u64,
    write_value_from_settings, FrameError, IoErrorKind,
};
use shared::float_len::{float_bits_to_length, length_to_float_bits, FloatFormat};

fn settings(bytes: BytesOptions, order: OrderOptions) -> TcpSettings {
    TcpSettings { address: IpAddress::V4([127, 0, 0, 1]), port: 8080, bytes, order }
}

#[test]
fn default_settings_are_localhost_port_zero_u32_little_endian() {
    let s = TcpSettings::default();
    assert_eq!(s.address, IpAddress::V4([127, 0, 0, 1]));
    assert_eq!(s.port, 0);
    assert_eq!(s.bytes, BytesOptions::U32);
    assert_eq!(s.order, OrderOptions::LittleEndian);
}

#[test]
fn u32_bytes_follow_the_byte_order() {
    assert_eq!(write_u32(0x0102_0304, &OrderOptions::LittleEndian), vec![4, 3, 2, 1]);
    assert_eq!(write_u32(0x0102_0304, &OrderOptions::BigEndian), vec![1, 2, 3, 4]);
    assert_eq!(read_u32(&[4, 3, 2, 1], &OrderOptions::LittleEndian), 0x0102_0304);
    assert_eq!(read_u32(&[1, 2, 3, 4], &OrderOptions::BigEndian), 0x0102_0304);
    for v in [0u32, 1, 255, 256, 0xdead_beef, u32::MAX] {
        assert_eq!(write_u32(v, &OrderOptions::LittleEndian), v.to_le_bytes().to_vec());
        assert_eq!(write_u32(v, &OrderOptions::BigEndian), v.to_be_bytes().to_vec());
        assert_eq!(read_u32(&v.to_le_bytes(), &OrderOptions::LittleEndian), v);
        assert_eq!(read_u32(&v.to_be_bytes(), &OrderOptions::BigEndian), v);
    }
}

#[test]
fn u64_bytes_follow_the_byte_order() {
    for v in [0u64, 7, 0x0102_0304_0506_0708, u64::MAX] {
        assert_eq!(write_u64(v, &OrderOptions::LittleEndian), v.to_le_bytes().to_vec());
        assert_eq!(write_u64(v, &OrderOptions::BigEndian), v.to_be_bytes().to_vec());
        assert_eq!(read_u64(&v.to_le_bytes(), &OrderOptions::LittleEndian), v);
        assert_eq!(read_u64(&v.to_be_bytes(), &OrderOptions::BigEndian), v);
    }
}

#[test]
fn float_prefixes_carry_bit_patterns() {
    let bits = 1234.5f32.to_bits();
    assert_eq!(write_f32(bits, &OrderOptions::BigEndian), 1234.5f32.to_be_bytes().to_vec());
    assert_eq!(read_f32(&1234.5f32.to_le_bytes(), &OrderOptions::LittleEndian), bits);
    let bits64 = 98765.25f64.to_bits();
    assert_eq!(write_f64(bits64, &OrderOptions::LittleEndian), 98765.25f64.to_le_bytes().to_vec());
    assert_eq!(read_f64(&98765.25f64.to_be_bytes(), &OrderOptions::BigEndian), bits64);
}

#[test]
fn header_width_per_kind() {
    assert_eq!(header_width(BytesOptions::U32), Some(4));
    assert_eq!(header_width(BytesOptions::F32), Some(4));
    assert_eq!(header_width(BytesOptions::U64), Some(8));
    assert_eq!(header_width(BytesOptions::F64), Some(8));
    for b in [
        BytesOptions::U8, BytesOptions::U16, BytesOptions::U128, BytesOptions::I8,
        BytesOptions::I16, BytesOptions::I32, BytesOptions::I64, BytesOptions::I128,
    ] {
        assert_eq!(header_width(b), None);
    }
}

#[test]
fn unsupported_kinds_are_not_implemented() {
    for b in [BytesOptions::U8, BytesOptions::U16, BytesOptions::I64, BytesOptions::I128] {
        let s = settings(b, OrderOptions::LittleEndian);
        assert_eq!(read_value_from_settings(&[1, 2, 3, 4], &s), Err(FrameError::NotImplemented));
        assert_eq!(write_value_from_settings(10, &s), Err(FrameError::NotImplemented));
    }
}

#[test]
fn length_prefix_round_trips_for_every_kind() {
    for order in [OrderOptions::LittleEndian, OrderOptions::BigEndian] {
        for len in [0usize, 1, 5, 1000, 65_536, 16_777_215] {
            for b in [BytesOptions::U32, BytesOptions::U64, BytesOptions::F32, BytesOptions::F64] {
                let s = settings(b, order);
                let h = write_value_from_settings(len, &s).unwrap();
                assert_eq!(h.len(), header_width(b).unwrap());
                assert_eq!(read_value_from_settings(&h, &s), Ok(len as u64));
            }
        }
    }
}

#[test]
fn length_prefix_matches_the_std_encoding() {
    let len = 1000usize;
    let le = settings(BytesOptions::U32, OrderOptions::LittleEndian);
    assert_eq!(write_value_from_settings(len, &le).unwrap(), (len as u32).to_le_bytes().to_vec());
    let f32be = settings(BytesOptions::F32, OrderOptions::BigEndian);
    assert_eq!(write_value_from_settings(len, &f32be).unwrap(), (len as f32).to_be_bytes().to_vec());
    let f64le = settings(BytesOptions::F64, OrderOptions::LittleEndian);
    assert_eq!(write_value_from_settings(len, &f64le).unwrap(), (len as f64).to_le_bytes().to_vec());
    let u64be = settings(BytesOptions::U64, OrderOptions::BigEndian);
    assert_eq!(write_value_from_settings(len, &u64be).unwrap(), (len as u64).to_be_bytes().to_vec());
}

#[test]
fn u32_prefix_truncates_long_lengths() {
    let s = settings(BytesOptions::U32, OrderOptions::BigEndian);
    let len = 0x1_0000_0005usize;
    let h = write_value_from_settings(len, &s).unwrap();
    assert_eq!(h, vec![0, 0, 0, 5]);
    assert_eq!(read_value_from_settings(&h, &s), Ok(5));
}

#[test]
fn f32_prefix_rounds_to_nearest_even() {
    let s = settings(BytesOptions::F32, OrderOptions::LittleEndian);
    // 2^24 + 1 lies halfway between 2^24 and 2^24 + 2: ties go to the even significand
    let h = write_value_from_settings(16_777_217, &s).unwrap();
    assert_eq!(read_value_from_settings(&h, &s), Ok(16_777_216));
    // 2^24 + 3 is halfway between 2^24 + 2 and 2^24 + 4: ties go to 2^24 + 4
    let h = write_value_from_settings(16_777_219, &s).unwrap();
    assert_eq!(read_value_from_settings(&h, &s), Ok(16_777_220));
    for len in [16_777_217usize, 16_777_219, 123_456_789, 0x7fff_ffff_ffff] {
        let h = write_value_from_settings(len, &s).unwrap();
        assert_eq!(read_value_from_settings(&h, &s), Ok((len as f32) as u64));
    }
}

#[test]
fn float_conversions_agree_with_rust_casts() {
    for n in [0u64, 1, 2, 3, 1000, 16_777_217, 9_007_199_254_740_993, 0xdead_beef_cafe, u64::MAX, u64::MAX - 1] {
        assert_eq!(length_to_float_bits(n, FloatFormat::Single), (n as f32).to_bits() as u64);
        assert_eq!(length_to_float_bits(n, FloatFormat::Double), (n as f64).to_bits());
    }
    for x in [0.0f32, -0.0, 0.5, 0.99, 1.0, 1.5, 2.5, 1e10, 1e30, -1.0, -1e30, f32::NAN, f32::INFINITY, f32::NEG_INFINITY, f32::MAX, f32::MIN_POSITIVE] {
        assert_eq!(float_bits_to_length(x.to_bits() as u64, FloatFormat::Single), x as u64);
    }
    for x in [0.0f64, 0.75, 3.99, 1e15, 1.8e19, 1e300, -2.0, f64::NAN, f64::INFINITY, f64::NEG_INFINITY, 5e-324] {
        assert_eq!(float_bits_to_length(x.to_bits(), FloatFormat::Double), x as u64);
    }
}

#[test]
fn saturated_lengths() {
    let s = settings(BytesOptions::F32, OrderOptions::BigEndian);
    let h = write_value_from_settings(usize::MAX, &s).unwrap();
    assert_eq!(read_value_from_settings(&h, &s), Ok(u64::MAX));
    let nan = settings(BytesOptions::F64, OrderOptions::LittleEndian);
    assert_eq!(read_value_from_settings(&f64::NAN.to_le_bytes(), &nan), Ok(0));
    assert_eq!(read_value_from_settings(&(-5.0f64).to_le_bytes(), &nan), Ok(0));
    assert_eq!(read_value_from_settings(&(42.9f64).to_le_bytes(), &nan), Ok(42));
}

#[test]
fn frame_is_big_endian_length_then_body() {
    let payload = vec![9u8, 8, 7];
    let frame = frame_message(&payload);
    assert_eq!(frame, vec![0, 0, 0, 3, 9, 8, 7]);
    assert_eq!(read_u32(&frame[0..4], &OrderOptions::BigEndian), 3);
    let empty = frame_message(&Vec::new());
    assert_eq!(empty, vec![0, 0, 0, 0]);
}

#[test]
fn disconnection_kinds() {
    assert!(is_disconnection(IoErrorKind::UnexpectedEof));
    assert!(is_disconnection(IoErrorKind::ConnectionReset));
    assert!(is_disconnection(IoErrorKind::BrokenPipe));
    assert!(!is_disconnection(IoErrorKind::Other));
}
