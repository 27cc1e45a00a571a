use crypto_market_integration::{
    decode_decimal, encode_decimal10, encode_decimal5, encode_num_to_10_bytes, encode_num_to_bytes,
    hex_to_byte, long_to_hex, parse_decimal, CodecError, Decimal,
};

fn dec(mantissa: u128, scale: u8) -> Decimal {
    Decimal { mantissa, scale }
}

#[test]
fn text_to_five_bytes() {
    let r = encode_num_to_bytes("12345.67".to_string()).unwrap();
    assert_eq!(r, vec![0x00, 0x12, 0xD6, 0x87, 0x02]);
}

#[test]
fn decimal_to_five_bytes() {
    assert_eq!(encode_decimal5(dec(1234567, 2)).unwrap(), vec![0x00, 0x12, 0xD6, 0x87, 0x02]);
}

#[test]
fn text_without_point_has_scale_zero() {
    assert_eq!(encode_num_to_bytes("100".to_string()).unwrap(), vec![0, 0, 0, 100, 0]);
}

#[test]
fn text_to_ten_bytes() {
    let r = encode_num_to_10_bytes("4722366482869645213.695".to_string()).unwrap();
    // 4722366482869645213695 = 2^72 - 1
    assert_eq!(r, vec![0xFF, 0xFF, 0xFF, 0xFF, 0xFF, 0xFF, 0xFF, 0xFF, 0xFF, 3]);
}

#[test]
fn five_byte_overflow() {
    assert_eq!(encode_num_to_bytes("4294967296".to_string()), Err(CodecError::EncodeOverflow));
    assert_eq!(encode_decimal5(dec(1u128 << 32, 0)), Err(CodecError::EncodeOverflow));
    assert_eq!(encode_num_to_bytes("4294967295".to_string()).unwrap(), vec![0xFF, 0xFF, 0xFF, 0xFF, 0]);
}

#[test]
fn ten_byte_overflow() {
    assert_eq!(encode_decimal10(dec(1u128 << 72, 1)), Err(CodecError::EncodeOverflow));
    assert_eq!(
        encode_num_to_10_bytes("4722366482869645213696".to_string()),
        Err(CodecError::EncodeOverflow)
    );
}

#[test]
fn malformed_text() {
    assert_eq!(parse_decimal("1.2.3"), Err(CodecError::InvalidNumber));
    assert_eq!(parse_decimal("abc"), Err(CodecError::InvalidNumber));
    assert_eq!(parse_decimal(""), Err(CodecError::InvalidNumber));
    assert_eq!(parse_decimal("."), Err(CodecError::InvalidNumber));
    assert_eq!(parse_decimal("-1.5"), Err(CodecError::InvalidNumber));
    assert_eq!(encode_num_to_bytes("1e5".to_string()), Err(CodecError::InvalidNumber));
}

#[test]
fn parse_keeps_trailing_zeros() {
    assert_eq!(parse_decimal("1.50"), Ok(dec(150, 2)));
    assert_eq!(parse_decimal("0.5"), Ok(dec(5, 1)));
    assert_eq!(parse_decimal(".5"), Ok(dec(5, 1)));
}

#[test]
fn scale_too_large() {
    let text = format!("0.{}", "1".repeat(256));
    assert_eq!(parse_decimal(&text), Err(CodecError::EncodeOverflow));
}

#[test]
fn numeric_round_trip_values() {
    for d in [dec(0, 0), dec(1234567, 2), dec(u32::MAX as u128, 255), dec(15, 1)] {
        let b = encode_decimal5(d).unwrap();
        assert_eq!(decode_decimal(&b, 0, 5), Ok(d));
    }
    for d in [dec(0, 0), dec((1u128 << 72) - 1, 8), dec(987654321012, 3)] {
        let b = encode_decimal10(d).unwrap();
        assert_eq!(decode_decimal(&b, 0, 10), Ok(d));
    }
}

#[test]
fn decode_truncated_numeric() {
    assert_eq!(decode_decimal(&vec![0, 0, 1], 0, 5), Err(CodecError::TruncatedInput));
    assert_eq!(decode_decimal(&vec![0, 0, 0, 0, 0, 1], 2, 5), Err(CodecError::TruncatedInput));
}

#[test]
fn hex_of_longs() {
    assert_eq!(long_to_hex(255), "ff");
    assert_eq!(long_to_hex(256), "0100");
    assert_eq!(long_to_hex(0), "00");
    assert_eq!(long_to_hex(1_700_000_000_000), "018bcfe56800");
    assert_eq!(long_to_hex(-1), "ffffffffffffffff");
}

#[test]
fn hex_text_to_bytes() {
    assert_eq!(hex_to_byte("0a ff".to_string()), vec![0x0a, 0xff]);
    assert_eq!(hex_to_byte("018BCFE56800".to_string()), vec![0x01, 0x8b, 0xcf, 0xe5, 0x68, 0x00]);
    assert_eq!(hex_to_byte("abc".to_string()), Vec::<u8>::new());
    assert_eq!(hex_to_byte("x y z".to_string()), Vec::<u8>::new());
    assert_eq!(hex_to_byte("0g1".to_string()), Vec::<u8>::new());
    assert_eq!(hex_to_byte(long_to_hex(4660)), vec![0x12, 0x34]);
}
