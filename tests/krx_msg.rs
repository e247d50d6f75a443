use mongodb::bson::{spec::BinarySubtype, Binary, Document};
use krx_msg::krx_msg::{parse_dist_index, KrxMsg};
use krx_msg::range_helper::{
    krx_message_dist_index_range, krx_message_layout, krx_messages_instcode_range, ByteRange,
};

/// A complete best-quotes message for `instcode`, with distribution index `distidx`.
fn quote_payload(distidx: &[u8], instcode: &[u8]) -> Vec<u8> {
    let mut p = b"B606F".to_vec();
    p.extend_from_slice(distidx);
    p.extend_from_slice(b"G101");
    p.extend_from_slice(instcode);
    p.resize(420, b' ');
    p
}

#[test]
fn b606f_record() {
    let payload = quote_payload(b"00000012", b"KR4165N30007");
    let msg = KrxMsg::new_from_payload(20240315, &payload, Some(1), Some(2)).unwrap();
    assert_eq!(msg.trcode, "B606F");
    assert_eq!(msg.instcode.as_deref(), Some("KR4165N30007"));
    assert_eq!(msg.distidx, Some(12));
    assert_eq!(msg.date, 20240315);
    assert_eq!(msg.packet_timestamp, Some(1));
    assert_eq!(msg.timestamp, Some(2));
    assert_eq!(msg.payload, payload);
}

#[test]
fn b606f_too_short_for_instcode() {
    let payload = b"B606F00000012G101KR4165".to_vec();
    let msg = KrxMsg::new_from_payload(20240315, &payload, None, None).unwrap();
    assert_eq!(msg.trcode, "B606F");
    assert_eq!(msg.instcode, None);
    assert_eq!(msg.distidx, Some(12));
    assert_eq!(msg.payload, payload);
}

#[test]
fn short_payload_has_only_payload() {
    let msg = KrxMsg::new_from_payload(20240315, b"B60", None, None).unwrap();
    assert_eq!(msg.trcode, "");
    assert_eq!(msg.instcode, None);
    assert_eq!(msg.distidx, None);
    assert_eq!(msg.payload, b"B60".to_vec());
    let empty = KrxMsg::new_from_payload(20240315, b"", None, None).unwrap();
    assert_eq!(empty.trcode, "");
    assert!(empty.payload.is_empty());
}

#[test]
fn undecodable_trcode_is_reported() {
    let mut payload = quote_payload(b"00000012", b"KR4165N30007");
    payload[1] = 0xff;
    let (msg, issues) = KrxMsg::build(20240315, &payload, None, None);
    assert_eq!(msg.trcode, "");
    assert!(issues.trcode);
    assert!(!issues.instcode);
    assert_eq!(msg.instcode, None);
    assert_eq!(msg.payload, payload);
}

#[test]
fn undecodable_instcode_is_reported() {
    let payload = quote_payload(b"00000012", b"KR4165N3000\xff");
    let (msg, issues) = KrxMsg::build(20240315, &payload, None, None);
    assert_eq!(msg.trcode, "B606F");
    assert_eq!(msg.instcode, None);
    assert!(issues.instcode);
    assert!(!issues.trcode);
}

#[test]
fn non_numeric_distidx_is_absent() {
    let payload = quote_payload(b"        ", b"KR4165N30007");
    let msg = KrxMsg::new_from_payload(20240315, &payload, None, None).unwrap();
    assert_eq!(msg.distidx, None);
    assert_eq!(msg.instcode.as_deref(), Some("KR4165N30007"));
}

#[test]
fn unknown_type_has_no_fields() {
    let mut payload = quote_payload(b"00000012", b"KR4165N30007");
    payload[0] = b'Z';
    let msg = KrxMsg::new_from_payload(20240315, &payload, None, None).unwrap();
    assert_eq!(msg.trcode, "Z606F");
    assert_eq!(msg.instcode, None);
    assert_eq!(msg.distidx, None);
}

#[test]
fn distidx_parse_rules() {
    assert_eq!(parse_dist_index(b"00000012"), Some(12));
    assert_eq!(parse_dist_index(b"+12"), Some(12));
    assert_eq!(parse_dist_index(b"-12"), Some(-12));
    assert_eq!(parse_dist_index(b"2147483647"), Some(2147483647));
    assert_eq!(parse_dist_index(b"-2147483648"), Some(-2147483648));
    assert_eq!(parse_dist_index(b"2147483648"), None);
    assert_eq!(parse_dist_index(b"99999999999"), None);
    assert_eq!(parse_dist_index(b"12 "), None);
    assert_eq!(parse_dist_index(b""), None);
    assert_eq!(parse_dist_index(b"-"), None);
    assert_eq!(parse_dist_index(b"1\xb0"), None);
}

#[test]
fn layout_table() {
    let quote = krx_message_layout(b"B606F").unwrap();
    assert_eq!(quote.instcode, ByteRange { start: 17, end: 29 });
    assert_eq!(quote.distidx, ByteRange { start: 5, end: 13 });
    assert_eq!(quote.msg_len, 420);
    for code in [&b"A001F"[..], b"A301F", b"B606F", b"G703F"] {
        let l = krx_message_layout(code).unwrap();
        assert!(l.instcode.start <= l.instcode.end && l.instcode.end <= l.msg_len);
        assert!(l.distidx.start <= l.distidx.end && l.distidx.end <= l.msg_len);
    }
    assert_eq!(krx_messages_instcode_range(b"A001F").unwrap(), ByteRange { start: 21, end: 33 });
    assert!(krx_messages_instcode_range(b"B606").is_none());
    assert!(krx_message_dist_index_range(b"X999F").is_none());
}

#[test]
fn rendering() {
    let mut payload = b"B606F".to_vec();
    payload.extend_from_slice(&[0xb0, 0xa1, 0xff]);
    let msg = KrxMsg::new_from_payload(20240315, &payload, Some(17), None).unwrap();
    assert_eq!(
        msg.to_string(),
        "KrxMsg {\n  date: 2024-03-15\n  trcode: B606F\n  distidx: None\n instcode: None\n  packet_timestamp: 17\n  timestamp: None\n  payload: B606F\u{ac00} (8 bytes)\n}"
    );
}

#[test]
fn rendering_pads_date() {
    let msg = KrxMsg::new_from_payload(20240105, b"X", None, None).unwrap();
    let text = msg.render_with_preview("p");
    assert!(text.starts_with("KrxMsg {\n  date: 2024-01-05\n"));
    assert!(text.ends_with("payload: p (1 bytes)\n}"));
    let neg = KrxMsg::new_from_payload(-5, b"X", None, None).unwrap();
    assert!(neg.render_with_preview("").contains("date: 0000-00--5\n"));
}

#[test]
fn record_round_trips_through_bson() {
    let payload = quote_payload(b"00000012", b"KR4165N30007");
    let msg = KrxMsg::new_from_payload(20240315, &payload, Some(5), None).unwrap();
    let mut doc = Document::new();
    doc.insert("date", msg.date);
    doc.insert("trcode", msg.trcode.clone());
    doc.insert("distidx", msg.distidx);
    doc.insert("instcode", msg.instcode.clone());
    doc.insert("packet_timestamp", msg.packet_timestamp.map(|t| t as i64));
    doc.insert("payload", Binary { subtype: BinarySubtype::Generic, bytes: msg.payload.clone() });
    let mut bytes = Vec::new();
    doc.to_writer(&mut bytes).unwrap();
    let back = Document::from_reader(&bytes[..]).unwrap();
    assert_eq!(back.get_i32("date").unwrap(), msg.date);
    assert_eq!(back.get_str("trcode").unwrap(), msg.trcode);
    assert_eq!(back.get_i32("distidx").unwrap(), 12);
    assert_eq!(back.get_str("instcode").unwrap(), "KR4165N30007");
    assert_eq!(back.get_i64("packet_timestamp").unwrap(), 5);
    assert_eq!(back.get_binary_generic("payload").unwrap(), &msg.payload);
}
