use cursored::byte_order::{decode_be, decode_le, encode_be, encode_le};
use cursored::signed::{
    i128_from_pattern, i128_to_pattern, i16_from_pattern, i16_to_pattern, i32_from_pattern,
    i32_to_pattern, i64_from_pattern, i64_to_pattern, i8_from_pattern, i8_to_pattern,
};
use cursored::{CursorError, Cursored};

fn written(put: fn(&mut Cursored)) -> Vec<u8> {
    let mut c = Cursored::new(Vec::new());
    put(&mut c);
    c.into_inner()
}

#[test]
fn round_trip_u32_example() {
    let mut c = Cursored::new(Vec::new());
    c.put_u32(0x0102_0304);
    assert_eq!(c.lasting(), &[1, 2, 3, 4]);
    assert_eq!(c.read_u32(), Ok(0x0102_0304));
    assert_eq!(c.advance(-4), Ok(()));
    assert_eq!(c.read_u32_le(), Ok(0x0403_0201));
    assert_eq!(c.remaining(), 0);
}

#[test]
fn round_trip_after_earlier_bytes() {
    let mut c = Cursored::new(vec![7, 7, 7]);
    assert_eq!(c.advance(3), Ok(()));
    c.put_u64_le(0x1122_3344_5566_7788);
    assert_eq!(c.position(), 3);
    assert_eq!(c.read_u64_le(), Ok(0x1122_3344_5566_7788));
    assert_eq!(c.position(), 11);
}

#[test]
fn endianness_asymmetry() {
    assert_eq!(written(|c| c.put_i16(-1)), vec![0xff, 0xff]);
    assert_eq!(written(|c| c.put_i16_le(-1)), vec![0xff, 0xff]);
    assert_eq!(written(|c| c.put_u16(0x0102)), vec![0x01, 0x02]);
    assert_eq!(written(|c| c.put_u16_le(0x0102)), vec![0x02, 0x01]);
}

#[test]
fn put_unsigned_big_endian_bytes() {
    assert_eq!(written(|c| c.put_u8(0xab)), vec![0xab]);
    assert_eq!(written(|c| c.put_u16(0x1234)), vec![0x12, 0x34]);
    assert_eq!(written(|c| c.put_u32(0x1234_5678)), vec![0x12, 0x34, 0x56, 0x78]);
    assert_eq!(
        written(|c| c.put_u64(0x0102_0304_0506_0708)),
        vec![1, 2, 3, 4, 5, 6, 7, 8]
    );
    assert_eq!(
        written(|c| c.put_u128(0x0102_0304_0506_0708_090a_0b0c_0d0e_0f10)),
        vec![1, 2, 3, 4, 5, 6, 7, 8, 9, 10, 11, 12, 13, 14, 15, 16]
    );
}

#[test]
fn put_unsigned_little_endian_bytes() {
    assert_eq!(written(|c| c.put_u16_le(0x1234)), vec![0x34, 0x12]);
    assert_eq!(written(|c| c.put_u32_le(0x1234_5678)), vec![0x78, 0x56, 0x34, 0x12]);
    assert_eq!(
        written(|c| c.put_u64_le(0x0102_0304_0506_0708)),
        vec![8, 7, 6, 5, 4, 3, 2, 1]
    );
    assert_eq!(
        written(|c| c.put_u128_le(0x0102_0304_0506_0708_090a_0b0c_0d0e_0f10)),
        vec![16, 15, 14, 13, 12, 11, 10, 9, 8, 7, 6, 5, 4, 3, 2, 1]
    );
}

#[test]
fn put_signed_bytes() {
    assert_eq!(written(|c| c.put_i8(-1)), vec![0xff]);
    assert_eq!(written(|c| c.put_i8(-128)), vec![0x80]);
    assert_eq!(written(|c| c.put_i8(127)), vec![0x7f]);
    assert_eq!(written(|c| c.put_i16(-2)), vec![0xff, 0xfe]);
    assert_eq!(written(|c| c.put_i16_le(-2)), vec![0xfe, 0xff]);
    assert_eq!(written(|c| c.put_i32(-2)), vec![0xff, 0xff, 0xff, 0xfe]);
    assert_eq!(written(|c| c.put_i32_le(-2)), vec![0xfe, 0xff, 0xff, 0xff]);
    assert_eq!(written(|c| c.put_i32(i32::MIN)), vec![0x80, 0, 0, 0]);
    assert_eq!(written(|c| c.put_i64(-2)), (-2i64).to_be_bytes().to_vec());
    assert_eq!(written(|c| c.put_i64_le(-2)), (-2i64).to_le_bytes().to_vec());
    assert_eq!(written(|c| c.put_i128(-2)), (-2i128).to_be_bytes().to_vec());
    assert_eq!(written(|c| c.put_i128_le(-2)), (-2i128).to_le_bytes().to_vec());
    assert_eq!(written(|c| c.put_i128(i128::MIN)), i128::MIN.to_be_bytes().to_vec());
}

#[test]
fn read_unsigned_values() {
    let bytes: Vec<u8> = (1..=16).collect();
    let mut c = Cursored::new(bytes.clone());
    assert_eq!(c.read_u8(), Ok(1));
    assert_eq!(c.advance(-1), Ok(()));
    assert_eq!(c.read_u16(), Ok(0x0102));
    assert_eq!(c.advance(-2), Ok(()));
    assert_eq!(c.read_u16_le(), Ok(0x0201));
    assert_eq!(c.advance(-2), Ok(()));
    assert_eq!(c.read_u32(), Ok(0x0102_0304));
    assert_eq!(c.advance(-4), Ok(()));
    assert_eq!(c.read_u32_le(), Ok(0x0403_0201));
    assert_eq!(c.advance(-4), Ok(()));
    assert_eq!(c.read_u64(), Ok(0x0102_0304_0506_0708));
    assert_eq!(c.advance(-8), Ok(()));
    assert_eq!(c.read_u64_le(), Ok(0x0807_0605_0403_0201));
    assert_eq!(c.advance(-8), Ok(()));
    assert_eq!(c.read_u128(), Ok(0x0102_0304_0506_0708_090a_0b0c_0d0e_0f10));
    assert_eq!(c.advance(-16), Ok(()));
    assert_eq!(c.read_u128_le(), Ok(0x100f_0e0d_0c0b_0a09_0807_0605_0403_0201));
    assert_eq!(c.remaining(), 0);
}

#[test]
fn read_signed_values() {
    let mut c = Cursored::new(vec![0xff, 0xfe]);
    assert_eq!(c.read_i8(), Ok(-1));
    assert_eq!(c.read_i8(), Ok(-2));
    assert_eq!(c.advance(-2), Ok(()));
    assert_eq!(c.read_i16(), Ok(-2));
    assert_eq!(c.advance(-2), Ok(()));
    assert_eq!(c.read_i16_le(), Ok(-257));

    let mut c = Cursored::new(vec![0x80, 0, 0, 1]);
    assert_eq!(c.read_i32(), Ok(i32::MIN + 1));
    assert_eq!(c.advance(-4), Ok(()));
    assert_eq!(c.read_i32_le(), Ok(0x0100_0080));

    let mut c = Cursored::new(vec![0x80, 0, 0, 0, 0, 0, 0, 0x7f]);
    assert_eq!(c.read_i64(), Ok(i64::MIN + 0x7f));
    assert_eq!(c.advance(-8), Ok(()));
    assert_eq!(c.read_i64_le(), Ok(0x7f00_0000_0000_0080));

    let mut bytes = vec![0u8; 16];
    bytes[0] = 0xff;
    let mut c = Cursored::new(bytes);
    assert_eq!(c.read_i128(), Ok(-(1i128 << 120)));
    assert_eq!(c.advance(-16), Ok(()));
    assert_eq!(c.read_i128_le(), Ok(0xff));
}

#[test]
fn round_trip_every_unsigned_type() {
    let mut c = Cursored::new(Vec::new());
    for v in [0u8, 1, 0x7f, 0x80, u8::MAX] {
        c.put_u8(v);
        assert_eq!(c.read_u8(), Ok(v));
    }
    for v in [0u16, 1, 0x00ff, 0x0100, 0x8000, u16::MAX] {
        c.put_u16(v);
        assert_eq!(c.read_u16(), Ok(v));
        c.put_u16_le(v);
        assert_eq!(c.read_u16_le(), Ok(v));
    }
    for v in [0u32, 1, 0x0102_0304, 0x8000_0000, u32::MAX] {
        c.put_u32(v);
        assert_eq!(c.read_u32(), Ok(v));
        c.put_u32_le(v);
        assert_eq!(c.read_u32_le(), Ok(v));
    }
    for v in [0u64, 1, 0x0102_0304_0506_0708, 1 << 63, u64::MAX] {
        c.put_u64(v);
        assert_eq!(c.read_u64(), Ok(v));
        c.put_u64_le(v);
        assert_eq!(c.read_u64_le(), Ok(v));
    }
    for v in [0u128, 1, 0x0102_0304_0506_0708_090a_0b0c_0d0e_0f10, 1 << 127, u128::MAX] {
        c.put_u128(v);
        assert_eq!(c.read_u128(), Ok(v));
        c.put_u128_le(v);
        assert_eq!(c.read_u128_le(), Ok(v));
    }
    assert_eq!(c.remaining(), 0);
    assert_eq!(c.read_u8(), Err(CursorError::BufferExhausted));
}

#[test]
fn round_trip_every_signed_type() {
    let mut c = Cursored::new(Vec::new());
    for v in [0i8, 1, -1, i8::MIN, i8::MAX] {
        c.put_i8(v);
        assert_eq!(c.read_i8(), Ok(v));
    }
    for v in [0i16, 1, -1, 0x0102, -0x0102, i16::MIN, i16::MAX] {
        c.put_i16(v);
        assert_eq!(c.read_i16(), Ok(v));
        c.put_i16_le(v);
        assert_eq!(c.read_i16_le(), Ok(v));
    }
    for v in [0i32, 1, -1, 0x0102_0304, -0x0102_0304, i32::MIN, i32::MAX] {
        c.put_i32(v);
        assert_eq!(c.read_i32(), Ok(v));
        c.put_i32_le(v);
        assert_eq!(c.read_i32_le(), Ok(v));
    }
    for v in [0i64, 1, -1, 0x0102_0304_0506_0708, i64::MIN, i64::MAX] {
        c.put_i64(v);
        assert_eq!(c.read_i64(), Ok(v));
        c.put_i64_le(v);
        assert_eq!(c.read_i64_le(), Ok(v));
    }
    for v in [0i128, 1, -1, 0x0102_0304_0506_0708_090a_0b0c_0d0e_0f10, i128::MIN, i128::MAX] {
        c.put_i128(v);
        assert_eq!(c.read_i128(), Ok(v));
        c.put_i128_le(v);
        assert_eq!(c.read_i128_le(), Ok(v));
    }
    assert_eq!(c.remaining(), 0);
}

#[test]
fn round_trip_float_bit_patterns() {
    let mut c = Cursored::new(Vec::new());
    for v in [0.0f32, -0.0, 1.5, -2.25, f32::MAX, f32::MIN_POSITIVE, f32::INFINITY] {
        c.put_u32(v.to_bits());
        assert_eq!(c.read_u32().map(f32::from_bits), Ok(v));
        c.put_u32_le(v.to_bits());
        assert_eq!(c.read_u32_le().map(f32::from_bits), Ok(v));
    }
    for v in [0.0f64, -0.0, 1.5, -2.25, f64::MAX, f64::MIN_POSITIVE, f64::NEG_INFINITY] {
        c.put_u64(v.to_bits());
        assert_eq!(c.read_u64().map(f64::from_bits), Ok(v));
        c.put_u64_le(v.to_bits());
        assert_eq!(c.read_u64_le().map(f64::from_bits), Ok(v));
    }
    c.put_u32(1.0f32.to_bits());
    assert_eq!(c.lasting(), &[0x3f, 0x80, 0, 0]);
    assert_eq!(c.lasting(), &1.0f32.to_be_bytes());
}

#[test]
fn writes_match_the_standard_byte_orders() {
    let v: u64 = 0xfedc_ba98_7654_3210;
    assert_eq!(written(|c| c.put_u64(0xfedc_ba98_7654_3210)), v.to_be_bytes().to_vec());
    assert_eq!(written(|c| c.put_u64_le(0xfedc_ba98_7654_3210)), v.to_le_bytes().to_vec());
    let w: i32 = -123_456_789;
    assert_eq!(written(|c| c.put_i32(-123_456_789)), w.to_be_bytes().to_vec());
    assert_eq!(written(|c| c.put_i32_le(-123_456_789)), w.to_le_bytes().to_vec());
}

#[test]
fn decode_runs_of_bytes() {
    assert_eq!(decode_be(&[]), 0);
    assert_eq!(decode_le(&[]), 0);
    assert_eq!(decode_be(&[0x12]), 0x12);
    assert_eq!(decode_le(&[0x12]), 0x12);
    assert_eq!(decode_be(&[1, 2, 3]), 0x01_0203);
    assert_eq!(decode_le(&[1, 2, 3]), 0x03_0201);
    assert_eq!(decode_be(&[0xff; 16]), u128::MAX);
    assert_eq!(decode_le(&[0xff; 16]), u128::MAX);
    let mut top = [0u8; 16];
    top[0] = 0x80;
    assert_eq!(decode_be(&top), 1 << 127);
    assert_eq!(decode_le(&top), 0x80);
}

#[test]
fn encode_low_order_bytes() {
    let mut out = vec![9u8];
    encode_be(&mut out, 0x0102_0304, 4);
    assert_eq!(out, vec![9, 1, 2, 3, 4]);
    encode_le(&mut out, 0x0102_0304, 4);
    assert_eq!(out, vec![9, 1, 2, 3, 4, 4, 3, 2, 1]);

    let mut out = Vec::new();
    encode_be(&mut out, 0x0102_0304, 2);
    assert_eq!(out, vec![3, 4]);
    encode_le(&mut out, 0x0102_0304, 2);
    assert_eq!(out, vec![3, 4, 4, 3]);
    encode_be(&mut out, 0x0102_0304, 0);
    encode_le(&mut out, 0x0102_0304, 0);
    assert_eq!(out, vec![3, 4, 4, 3]);

    let mut out = Vec::new();
    encode_be(&mut out, 1, 3);
    assert_eq!(out, vec![0, 0, 1]);
    encode_le(&mut out, 1, 3);
    assert_eq!(out, vec![0, 0, 1, 1, 0, 0]);
}

#[test]
fn encode_then_decode_gives_value_back() {
    for v in [0u128, 1, 0xff, 0x100, 0xdead_beef, u64::MAX as u128, u128::MAX] {
        let mut be = Vec::new();
        encode_be(&mut be, v, 16);
        assert_eq!(be.len(), 16);
        assert_eq!(decode_be(&be), v);
        let mut le = Vec::new();
        encode_le(&mut le, v, 16);
        assert_eq!(decode_le(&le), v);
        be.reverse();
        assert_eq!(be, le);
    }
}

#[test]
fn decode_then_encode_gives_bytes_back() {
    let bytes = [0u8, 0x80, 0xff, 1, 0];
    let mut out = Vec::new();
    encode_be(&mut out, decode_be(&bytes), 5);
    assert_eq!(out, bytes);
    let mut out = Vec::new();
    encode_le(&mut out, decode_le(&bytes), 5);
    assert_eq!(out, bytes);
}

#[test]
fn signed_readings_of_patterns() {
    assert_eq!(i8_from_pattern(0x7f), 127);
    assert_eq!(i8_from_pattern(0x80), -128);
    assert_eq!(i8_from_pattern(0xff), -1);
    assert_eq!(i16_from_pattern(0x7fff), i16::MAX);
    assert_eq!(i16_from_pattern(0x8000), i16::MIN);
    assert_eq!(i16_from_pattern(0xffff), -1);
    assert_eq!(i32_from_pattern(0x7fff_ffff), i32::MAX);
    assert_eq!(i32_from_pattern(0x8000_0000), i32::MIN);
    assert_eq!(i32_from_pattern(0xffff_fffe), -2);
    assert_eq!(i64_from_pattern(1 << 63), i64::MIN);
    assert_eq!(i64_from_pattern(u64::MAX), -1);
    assert_eq!(i64_from_pattern(5), 5);
    assert_eq!(i128_from_pattern(1 << 127), i128::MIN);
    assert_eq!(i128_from_pattern(u128::MAX), -1);
    assert_eq!(i128_from_pattern(5), 5);
}

#[test]
fn patterns_of_signed_numbers() {
    assert_eq!(i8_to_pattern(-1), 0xff);
    assert_eq!(i8_to_pattern(-128), 0x80);
    assert_eq!(i8_to_pattern(127), 0x7f);
    assert_eq!(i16_to_pattern(-1), 0xffff);
    assert_eq!(i16_to_pattern(i16::MIN), 0x8000);
    assert_eq!(i32_to_pattern(-2), 0xffff_fffe);
    assert_eq!(i32_to_pattern(7), 7);
    assert_eq!(i64_to_pattern(-1), u64::MAX);
    assert_eq!(i64_to_pattern(i64::MIN), 1 << 63);
    assert_eq!(i128_to_pattern(-1), u128::MAX);
    assert_eq!(i128_to_pattern(i128::MIN), 1 << 127);
    assert_eq!(i128_to_pattern(0), 0);
}
