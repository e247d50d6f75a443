use krx_msg::krx_msg::KrxMsg;
use krx_msg::payload_parser::{
    bytes_to_decimal, bytes_to_i32, parse_data, parse_json_db, parse_packet, Decimal,
    ParsedValue, PayloadField, HEADER_LEN,
};
use krx_msg::text::bytes_to_string;

fn decimal_value(d: &Decimal) -> f64 {
    let mut v = 0.0;
    for &b in d.whole.iter() {
        v = v * 10.0 + (b - b'0') as f64;
    }
    let mut w = 0.1;
    for &b in d.fraction.iter() {
        v += (b - b'0') as f64 * w;
        w *= 0.1;
    }
    if d.negative {
        -v
    } else {
        v
    }
}

fn field(start: usize, end: usize, ty: &str) -> PayloadField {
    PayloadField { start_point: start, cumulative_length: end, data_type: ty.to_string() }
}

#[test]
fn int_reads_plain_digits() {
    assert_eq!(bytes_to_i32(b"123"), 123);
}

#[test]
fn int_stops_at_non_digit() {
    assert_eq!(bytes_to_i32(b"-7x"), -7);
    assert_eq!(bytes_to_i32(b"42 17"), 42);
}

#[test]
fn int_without_digits_is_zero() {
    assert_eq!(bytes_to_i32(b"   "), 0);
    assert_eq!(bytes_to_i32(b""), 0);
    assert_eq!(bytes_to_i32(b"-"), 0);
    assert_eq!(bytes_to_i32(b"+5"), 0);
}

#[test]
fn int_wraps_on_overflow() {
    assert_eq!(bytes_to_i32(b"2147483647"), 2147483647);
    assert_eq!(bytes_to_i32(b"2147483648"), -2147483648);
    assert_eq!(bytes_to_i32(b"-2147483648"), -2147483648);
    assert_eq!(bytes_to_i32(b"4294967297"), 1);
}

#[test]
fn decimal_reads_fraction() {
    let d = bytes_to_decimal(b"12.50");
    assert!(!d.negative);
    assert_eq!(d.whole, b"12".to_vec());
    assert_eq!(d.fraction, b"50".to_vec());
    assert!((decimal_value(&d) - 12.5).abs() < 1e-12);
}

#[test]
fn decimal_reads_negative_fraction() {
    let d = bytes_to_decimal(b"-0.25");
    assert!(d.negative);
    assert!((decimal_value(&d) + 0.25).abs() < 1e-12);
}

#[test]
fn decimal_without_digits_is_zero() {
    let d = bytes_to_decimal(b"  1.5");
    assert!(d.whole.is_empty());
    assert!(d.fraction.is_empty());
    assert_eq!(decimal_value(&d), 0.0);
}

#[test]
fn decimal_stops_at_second_point() {
    let d = bytes_to_decimal(b"3.14.15");
    assert_eq!(d.whole, b"3".to_vec());
    assert_eq!(d.fraction, b"14".to_vec());
}

#[test]
fn string_maps_each_byte() {
    assert_eq!(bytes_to_string(b"AB 1"), "AB 1");
    assert_eq!(bytes_to_string(&[0x41, 0xb0, 0xff]), "A\u{b0}\u{ff}");
}

#[test]
fn parse_data_by_type_name() {
    match parse_data(b"0042", "Int") {
        ParsedValue::Integer(v) => assert_eq!(v, 42),
        _ => panic!("expected an integer"),
    }
    match parse_data(b"-1.5", "Double") {
        ParsedValue::Double(d) => assert!((decimal_value(&d) + 1.5).abs() < 1e-12),
        _ => panic!("expected a decimal"),
    }
    match parse_data(b"KR41", "String") {
        ParsedValue::Text(t) => assert_eq!(t, "KR41"),
        _ => panic!("expected text"),
    }
    match parse_data(b"123", "Long") {
        ParsedValue::Text(t) => assert_eq!(t, "out of data type"),
        _ => panic!("expected text"),
    }
}

#[test]
fn packet_field_after_headers() {
    let mut packet = vec![0u8; HEADER_LEN];
    packet.extend_from_slice(b"B606F000123");
    let fields = vec![field(0, 5, "String"), field(5, 11, "Int")];
    match parse_packet(&packet, &fields, 1) {
        Some(ParsedValue::Integer(v)) => assert_eq!(v, 123),
        _ => panic!("expected an integer"),
    }
    match parse_packet(&packet, &fields, 0) {
        Some(ParsedValue::Text(t)) => assert_eq!(t, "B606F"),
        _ => panic!("expected text"),
    }
}

#[test]
fn packet_too_short_gives_none() {
    let mut packet = vec![0u8; HEADER_LEN];
    packet.extend_from_slice(b"B606F0001");
    let fields = vec![field(5, 11, "Int")];
    assert!(parse_packet(&packet, &fields, 0).is_none());
}

#[test]
fn stored_record_field() {
    let msg = KrxMsg::new_from_payload(20240315, b"B606F00000007", None, None).unwrap();
    let fields = vec![field(5, 13, "Int"), field(5, 20, "Int")];
    match parse_json_db(&msg, &fields, 0) {
        Some(ParsedValue::Integer(v)) => assert_eq!(v, 7),
        _ => panic!("expected an integer"),
    }
    assert!(parse_json_db(&msg, &fields, 1).is_none());
}
