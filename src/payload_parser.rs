//! Schema-driven decoding of a single field out of a payload.

use vstd::prelude::*;

verus! {

use vstd::arithmetic::div_mod::{lemma_add_mod_noop, lemma_mul_mod_noop_left};
pub use crate::text::bytes_to_string;
use crate::text::{copy_range, latin1};
use vstd::utf8::encode_utf8;
use crate::krx_msg::KrxMsg;

/// 2^32, the modulus of 32-bit wrapping arithmetic.
pub open spec fn modulus_32() -> int {
    0x1_0000_0000
}

/// The value of `x` reduced into the `i32` range with two's-complement wrapping.
pub open spec fn wrap_i32(x: int) -> int {
    let m = x % modulus_32();
    if m >= 0x8000_0000 {
        m - modulus_32()
    } else {
        m
    }
}

pub open spec fn is_digit(b: u8) -> bool {
    0x30 <= b && b <= 0x39
}

/// Length of the run of ASCII digits at the start of `s`.
pub open spec fn digit_run(s: Seq<u8>) -> nat
    decreases s.len(),
{
    if s.len() > 0 && is_digit(s[0]) {
        1 + digit_run(s.drop_first())
    } else {
        0
    }
}

/// The base-10 value of a sequence of ASCII digits.
pub open spec fn digits_value(s: Seq<u8>) -> int
    decreases s.len(),
{
    if s.len() == 0 {
        0
    } else {
        digits_value(s.drop_last()) * 10 + (s.last() - 0x30)
    }
}

/// Whether the slice opens with a minus sign.
pub open spec fn is_negative(s: Seq<u8>) -> bool {
    s.len() > 0 && s[0] == 0x2d
}

/// Where the digits start: after the sign, if there is one.
pub open spec fn sign_len(s: Seq<u8>) -> nat {
    if is_negative(s) {
        1
    } else {
        0
    }
}

/// The digits of the whole part: the digit run right after the optional sign.
pub open spec fn whole_digits(s: Seq<u8>) -> Seq<u8> {
    let st = sign_len(s) as int;
    s.subrange(st, st + digit_run(s.skip(st)))
}

/// The signed value of the whole part, before any wrapping.
pub open spec fn whole_value(s: Seq<u8>) -> int {
    if is_negative(s) {
        -digits_value(whole_digits(s))
    } else {
        digits_value(whole_digits(s))
    }
}

/// A run of digits that stops at `s[i]` is exactly `digit_run(s)` long.
proof fn lemma_digit_run_exact(s: Seq<u8>, i: int)
    requires
        0 <= i <= s.len(),
        forall|k: int| 0 <= k < i ==> is_digit(#[trigger] s[k]),
        i == s.len() || !is_digit(s[i]),
    ensures
        digit_run(s) == i,
    decreases s.len(),
{
    if i > 0 {
        assert forall|k: int| 0 <= k < i - 1 implies is_digit(#[trigger] s.drop_first()[k]) by {
            assert(s.drop_first()[k] == s[k + 1]);
        }
        if i - 1 < s.drop_first().len() {
            assert(s.drop_first()[i - 1] == s[i]);
        }
        lemma_digit_run_exact(s.drop_first(), i - 1);
    }
}

/// Adding one more digit to a prefix of digits.
proof fn lemma_digits_value_step(s: Seq<u8>, lo: int, i: int)
    requires
        0 <= lo <= i < s.len(),
    ensures
        digits_value(s.subrange(lo, i + 1)) == digits_value(s.subrange(lo, i)) * 10 + (s[i]
            - 0x30),
{
    assert(s.subrange(lo, i + 1).drop_last() =~= s.subrange(lo, i));
}

/// Reads the optional sign and the leading digits as a 32-bit integer,
/// wrapping on overflow; no leading digits give zero.
pub fn bytes_to_i32(bytes: &[u8]) -> (r: i32)
    ensures
        r as int == wrap_i32(whole_value(bytes@)),
{
    let ghost s = bytes@;
    let mut acc: u64 = 0;
    let mut negative = false;
    let mut i: usize = 0;
    if bytes.len() > 0 && bytes[0] == 0x2d {
        negative = true;
        i = 1;
    }
    let start = i;
    assert(start == sign_len(s));
    while i < bytes.len() && 0x30 <= bytes[i] && bytes[i] <= 0x39
        invariant
            start <= i <= bytes.len(),
            start == sign_len(s),
            negative == is_negative(s),
            s == bytes@,
            acc < modulus_32(),
            acc == digits_value(s.subrange(start as int, i as int)) % modulus_32(),
            forall|k: int| start <= k < i ==> is_digit(#[trigger] s[k]),
        decreases bytes.len() - i,
    {
        let d = (bytes[i] - 0x30) as u64;
        proof {
            let v = digits_value(s.subrange(start as int, i as int));
            lemma_digits_value_step(s, start as int, i as int);
            lemma_mul_mod_noop_left(v, 10, modulus_32());
            lemma_add_mod_noop(v * 10, d as int, modulus_32());
            lemma_add_mod_noop(acc * 10, d as int, modulus_32());
            assert((acc * 10) % modulus_32() == (v * 10) % modulus_32());
            assert(d < modulus_32());
            assert(d as int % modulus_32() == d);
        }
        acc = (acc * 10 + d) % 0x1_0000_0000;
        i = i + 1;
    }
    proof {
        let rest = s.skip(start as int);
        assert forall|k: int| 0 <= k < i - start implies is_digit(#[trigger] rest[k]) by {
            assert(rest[k] == s[k + start]);
        }
        if i < s.len() {
            assert(rest[i - start] == s[i as int]);
        }
        lemma_digit_run_exact(rest, i - start);
        assert(whole_digits(s) =~= s.subrange(start as int, i as int));
    }
    let m: u64 = if negative {
        (0x1_0000_0000 - acc) % 0x1_0000_0000
    } else {
        acc
    };
    proof {
        let v = digits_value(whole_digits(s));
        if negative {
            lemma_sub_mod(v);
        }
    }
    if m >= 0x8000_0000 {
        (m as i64 - 0x1_0000_0000) as i32
    } else {
        m as i32
    }
}

proof fn lemma_sub_mod(v: int)
    ensures
        (modulus_32() - v % modulus_32()) % modulus_32() == (-v) % modulus_32(),
{
    vstd::arithmetic::div_mod::lemma_sub_mod_noop(modulus_32(), v, modulus_32());
    vstd::arithmetic::div_mod::lemma_mod_self_0(modulus_32());
    vstd::arithmetic::div_mod::lemma_mod_twice(-v, modulus_32());
    vstd::arithmetic::div_mod::lemma_add_mod_noop(modulus_32(), -v, modulus_32());
}


/// The digits after a decimal point that directly follows the whole part;
/// empty when there is no such point.
pub open spec fn fraction_digits(s: Seq<u8>) -> Seq<u8> {
    let p: int = (sign_len(s) + digit_run(s.skip(sign_len(s) as int))) as int;
    if p < s.len() && s[p] == 0x2e {
        s.subrange(p + 1, p + 1 + digit_run(s.skip(p + 1)))
    } else {
        Seq::empty()
    }
}

/// Index just past the run of digits that starts at `from`.
fn scan_digits(bytes: &[u8], from: usize) -> (r: usize)
    requires
        from <= bytes@.len(),
    ensures
        r == from + digit_run(bytes@.skip(from as int)),
        r <= bytes@.len(),
{
    let mut i = from;
    while i < bytes.len() && 0x30 <= bytes[i] && bytes[i] <= 0x39
        invariant
            from <= i <= bytes@.len(),
            forall|k: int| from <= k < i ==> is_digit(#[trigger] bytes@[k]),
        decreases bytes.len() - i,
    {
        i = i + 1;
    }
    proof {
        let rest = bytes@.skip(from as int);
        assert forall|k: int| 0 <= k < i - from implies is_digit(#[trigger] rest[k]) by {
            assert(rest[k] == bytes@[k + from]);
        }
        if i < bytes@.len() {
            assert(rest[i - from] == bytes@[i as int]);
        }
        lemma_digit_run_exact(rest, i - from);
    }
    i
}

/// A fixed-point decimal read from text: its sign and the ASCII digits of
/// its whole and fractional parts, kept exactly as they appeared.
pub struct Decimal {
    pub negative: bool,
    pub whole: Vec<u8>,
    pub fraction: Vec<u8>,
}

/// Reads an optional minus sign, the leading digits and, after a single
/// decimal point, the fractional digits; scanning stops at the first other
/// byte. No leading digits give an empty whole part, which reads as zero.
pub fn bytes_to_decimal(bytes: &[u8]) -> (r: Decimal)
    ensures
        r.negative == is_negative(bytes@),
        r.whole@ == whole_digits(bytes@),
        r.fraction@ == fraction_digits(bytes@),
{
    let negative = bytes.len() > 0 && bytes[0] == 0x2d;
    let start: usize = if negative { 1 } else { 0 };
    let p = scan_digits(bytes, start);
    let whole = copy_range(bytes, start, p);
    let fraction = if p < bytes.len() && bytes[p] == 0x2e {
        let q = scan_digits(bytes, p + 1);
        copy_range(bytes, p + 1, q)
    } else {
        Vec::new()
    };
    Decimal { negative, whole, fraction }
}

/// A typed value decoded from a field.
pub enum ParsedValue {
    Double(Decimal),
    Integer(i32),
    Text(String),
}

/// One field of a payload schema: bytes `start_point..cumulative_length`,
/// declared as `"Double"`, `"Int"` or `"String"`.
pub struct PayloadField {
    pub start_point: usize,
    pub cumulative_length: usize,
    pub data_type: String,
}

/// The bytes of the type name `Double`.
pub open spec fn double_name() -> Seq<u8> {
    seq![0x44u8, 0x6f, 0x75, 0x62, 0x6c, 0x65]
}

/// The bytes of the type name `Int`.
pub open spec fn int_name() -> Seq<u8> {
    seq![0x49u8, 0x6e, 0x74]
}

/// The bytes of the type name `String`.
pub open spec fn string_name() -> Seq<u8> {
    seq![0x53u8, 0x74, 0x72, 0x69, 0x6e, 0x67]
}

fn is_double_name(b: &[u8]) -> (r: bool)
    ensures
        r == (b@ == double_name()),
{
    let r = b.len() == 6 && b[0] == 0x44 && b[1] == 0x6f && b[2] == 0x75 && b[3] == 0x62 && b[4]
        == 0x6c && b[5] == 0x65;
    if r {
        assert(b@ =~= double_name());
    }
    r
}

fn is_int_name(b: &[u8]) -> (r: bool)
    ensures
        r == (b@ == int_name()),
{
    let r = b.len() == 3 && b[0] == 0x49 && b[1] == 0x6e && b[2] == 0x74;
    if r {
        assert(b@ =~= int_name());
    }
    r
}

fn is_string_name(b: &[u8]) -> (r: bool)
    ensures
        r == (b@ == string_name()),
{
    let r = b.len() == 6 && b[0] == 0x53 && b[1] == 0x74 && b[2] == 0x72 && b[3] == 0x69 && b[4]
        == 0x6e && b[5] == 0x67;
    if r {
        assert(b@ =~= string_name());
    }
    r
}

/// What decoding `data` as the type named by `ty` gives.
pub open spec fn parsed_as(v: ParsedValue, data: Seq<u8>, ty: Seq<u8>) -> bool {
    if ty == double_name() {
        v matches ParsedValue::Double(d) && d.negative == is_negative(data) && d.whole@
            == whole_digits(data) && d.fraction@ == fraction_digits(data)
    } else if ty == int_name() {
        v matches ParsedValue::Integer(n) && n as int == wrap_i32(whole_value(data))
    } else if ty == string_name() {
        v matches ParsedValue::Text(t) && t@ == latin1(data)
    } else {
        v matches ParsedValue::Text(t) && t@ == "out of data type"@
    }
}

/// Decodes `data` as the type named `data_type`; an unknown name gives a
/// fixed text that says so.
pub fn parse_data(data: &[u8], data_type: &str) -> (r: ParsedValue)
    ensures
        parsed_as(r, data@, encode_utf8(data_type@)),
{
    let name = data_type.as_bytes();
    if is_double_name(name) {
        ParsedValue::Double(bytes_to_decimal(data))
    } else if is_int_name(name) {
        ParsedValue::Integer(bytes_to_i32(data))
    } else if is_string_name(name) {
        ParsedValue::Text(bytes_to_string(data))
    } else {
        ParsedValue::Text("out of data type".to_owned())
    }
}

/// Whether `field` can be cut out of any payload long enough for it.
pub open spec fn field_ok(field: PayloadField) -> bool {
    field.start_point <= field.cumulative_length
}

/// What decoding `field` out of `payload` gives: nothing when the payload is
/// too short, else the typed value of the field's bytes.
pub open spec fn field_parsed(r: Option<ParsedValue>, payload: Seq<u8>, field: PayloadField) -> bool {
    if payload.len() < field.cumulative_length {
        r is None
    } else {
        r matches Some(v) && parsed_as(
            v,
            payload.subrange(field.start_point as int, field.cumulative_length as int),
            encode_utf8(field.data_type@),
        )
    }
}

/// Bytes of link, network and transport headers (Ethernet, IPv4, UDP) in
/// front of a captured packet's payload.
pub const HEADER_LEN: usize = 42;

/// Decodes `field` out of the payload that starts at `offset` in `bytes`.
fn parse_field_at(bytes: &[u8], offset: usize, field: &PayloadField) -> (r: Option<ParsedValue>)
    requires
        offset <= bytes@.len(),
        field_ok(*field),
    ensures
        field_parsed(r, bytes@.skip(offset as int), *field),
{
    let ghost payload = bytes@.skip(offset as int);
    if bytes.len() - offset < field.cumulative_length {
        return None;
    }
    let data = copy_range(bytes, offset + field.start_point, offset + field.cumulative_length);
    assert(data@ =~= payload.subrange(
        field.start_point as int,
        field.cumulative_length as int,
    ));
    Some(parse_data(data.as_slice(), field.data_type.as_str()))
}

/// Decodes field `field_idx` of the schema out of a captured packet, whose
/// payload follows the first `HEADER_LEN` bytes.
pub fn parse_packet(packet: &[u8], fields: &[PayloadField], field_idx: usize) -> (r: Option<
    ParsedValue,
>)
    requires
        packet@.len() >= HEADER_LEN,
        field_idx < fields@.len(),
        field_ok(fields@[field_idx as int]),
    ensures
        field_parsed(r, packet@.skip(HEADER_LEN as int), fields@[field_idx as int]),
{
    parse_field_at(packet, HEADER_LEN, &fields[field_idx])
}

/// Decodes field `field_idx` of the schema out of a stored record's payload.
pub fn parse_json_db(krx_msg: &KrxMsg, fields: &[PayloadField], field_idx: usize) -> (r: Option<
    ParsedValue,
>)
    requires
        field_idx < fields@.len(),
        field_ok(fields@[field_idx as int]),
    ensures
        field_parsed(r, krx_msg.payload@, fields@[field_idx as int]),
{
    let payload = krx_msg.payload.as_slice();
    let r = parse_field_at(payload, 0, &fields[field_idx]);
    assert(payload@.skip(0) =~= payload@);
    r
}

} // verus!
