//! The normalized record built from one raw feed message.

use vstd::prelude::*;

verus! {

use crate::payload_parser::{digit_run, digits_value, is_digit};
use crate::range_helper::{
    ByteRange,
    TRCODE_LEN,
    distidx_range_of,
    instcode_range_of,
    krx_message_dist_index_range,
    krx_messages_instcode_range,
    trcode_of,
};
use crate::text::{copy_range, utf8_string, utf8_text};
use vstd::utf8::{decode_utf8, valid_utf8};

/// Nanoseconds since the Unix epoch.
pub type UnixNano = u64;

/// One decoded feed message.
///
/// `date` is `yyyymmdd`; `trcode` is the five-byte message type (data
/// category, information kind, market); `distidx` is the distribution index,
/// the order of the message among those of the same type; `instcode` is the
/// twelve-byte instrument code; `packet_timestamp` is when the packet was
/// received and `timestamp` when the message reached the processor. `payload`
/// is the raw message, kept as it came.
#[derive(Clone, Debug)]
pub struct KrxMsg {
    pub date: i32,
    pub trcode: String,
    pub distidx: Option<i32>,
    pub instcode: Option<String>,
    pub packet_timestamp: Option<UnixNano>,
    pub timestamp: Option<UnixNano>,
    pub payload: Vec<u8>,
}

/// Which parts of a payload could not be read as text while building a
/// record. Both are worth a diagnostic; neither stops the build.
#[derive(Clone, Copy, Debug, PartialEq, Eq, Structural)]
pub struct DecodeIssues {
    /// The type code was missing or not valid UTF-8.
    pub trcode: bool,
    /// The instrument code was in range but not valid UTF-8.
    pub instcode: bool,
}

/// The bytes of an optional field at range `r`, when the payload holds them.
pub open spec fn field_bytes(p: Seq<u8>, r: Option<ByteRange>) -> Option<Seq<u8>> {
    match r {
        Some(r) => if p.len() < r.end || r.end < r.start {
            None
        } else {
            Some(p.subrange(r.start as int, r.end as int))
        },
        None => None,
    }
}

/// The message type as text: empty when the payload is shorter than a type
/// code or its bytes are not valid UTF-8.
pub open spec fn trcode_text(p: Seq<u8>) -> Seq<char> {
    match trcode_of(p) {
        Some(c) => match utf8_text(c) {
            Some(t) => t,
            None => Seq::empty(),
        },
        None => Seq::empty(),
    }
}

/// The instrument code as text, when it is in range and valid UTF-8.
pub open spec fn instcode_text(p: Seq<u8>) -> Option<Seq<char>> {
    match field_bytes(p, instcode_range_of(p)) {
        Some(b) => utf8_text(b),
        None => None,
    }
}

/// A base-10 `i32` as `str::parse` reads it: an optional `+` or `-`, then one
/// or more ASCII digits, with a value in range.
pub open spec fn parse_i32(s: Seq<u8>) -> Option<int> {
    let signed = s.len() > 0 && (s[0] == 0x2b || s[0] == 0x2d);
    let digits = if signed {
        s.drop_first()
    } else {
        s
    };
    let v = if signed && s[0] == 0x2d {
        -digits_value(digits)
    } else {
        digits_value(digits)
    };
    if digits.len() > 0 && digit_run(digits) == digits.len() && i32::MIN <= v <= i32::MAX {
        Some(v)
    } else {
        None
    }
}

/// The distribution index, when it is in range and a well-formed integer.
pub open spec fn distidx_value(p: Seq<u8>) -> Option<int> {
    match field_bytes(p, distidx_range_of(p)) {
        Some(b) => parse_i32(b),
        None => None,
    }
}

pub open spec fn opt_text(o: Option<String>) -> Option<Seq<char>> {
    match o {
        Some(s) => Some(s@),
        None => None,
    }
}

pub open spec fn opt_int(o: Option<i32>) -> Option<int> {
    match o {
        Some(v) => Some(v as int),
        None => None,
    }
}

/// `m` is the record of `payload`, received at the given date and times.
pub open spec fn is_record_of(
    m: KrxMsg,
    date: i32,
    payload: Seq<u8>,
    packet_timestamp: Option<UnixNano>,
    timestamp: Option<UnixNano>,
) -> bool {
    &&& m.date == date
    &&& m.trcode@ == trcode_text(payload)
    &&& opt_text(m.instcode) == instcode_text(payload)
    &&& opt_int(m.distidx) == distidx_value(payload)
    &&& m.packet_timestamp == packet_timestamp
    &&& m.timestamp == timestamp
    &&& m.payload@ == payload
}

/// Parses a signed base-10 `i32`, with no other bytes around it.
pub fn parse_dist_index(bytes: &[u8]) -> (r: Option<i32>)
    ensures
        opt_int(r) == parse_i32(bytes@),
{
    let ghost s = bytes@;
    let signed = bytes.len() > 0 && (bytes[0] == 0x2b || bytes[0] == 0x2d);
    let negative = signed && bytes[0] == 0x2d;
    let start: usize = if signed { 1 } else { 0 };
    let ghost digits = if signed { s.drop_first() } else { s };
    assert(digits =~= s.skip(start as int));
    let mut i: usize = start;
    let mut acc: u64 = 0;
    let mut big = false;
    while i < bytes.len() && 0x30 <= bytes[i] && bytes[i] <= 0x39
        invariant
            start <= i <= bytes@.len(),
            s == bytes@,
            digits == s.skip(start as int),
            forall|k: int| start <= k < i ==> is_digit(#[trigger] s[k]),
            !big ==> acc == digits_value(s.subrange(start as int, i as int)),
            acc <= 0x8000_0000,
            big ==> digits_value(s.subrange(start as int, i as int)) > 0x8000_0000,
        decreases bytes.len() - i,
    {
        let d = (bytes[i] - 0x30) as u64;
        proof {
            assert(s.subrange(start as int, i + 1).drop_last() =~= s.subrange(start as int, i as int));
        }
        if !big {
            let next = acc * 10 + d;
            if next > 0x8000_0000 {
                big = true;
            } else {
                acc = next;
            }
        }
        i = i + 1;
    }
    proof {
        assert(s.subrange(start as int, i as int) =~= digits.take(i - start));
        assert forall|k: int| 0 <= k < i - start implies is_digit(#[trigger] digits[k]) by {
            assert(digits[k] == s[k + start]);
        }
    }
    if i == start || i < bytes.len() {
        proof {
            if i < bytes.len() {
                assert(digits[i - start] == s[i as int]);
                lemma_run_stops(digits, i - start);
            }
        }
        return None;
    }
    proof {
        assert(digits.take(i - start) =~= digits);
        lemma_run_full(digits);
    }
    if big {
        return None;
    }
    if negative {
        Some((0 - (acc as i64)) as i32)
    } else if acc <= 0x7fff_ffff {
        Some(acc as i32)
    } else {
        None
    }
}

/// A digit run cannot pass a non-digit.
proof fn lemma_run_stops(s: Seq<u8>, i: int)
    requires
        0 <= i < s.len(),
        !is_digit(s[i]),
    ensures
        digit_run(s) <= i,
    decreases s.len(),
{
    if i > 0 && s.len() > 0 && is_digit(s[0]) {
        assert(s.drop_first()[i - 1] == s[i]);
        lemma_run_stops(s.drop_first(), i - 1);
    }
}

/// A sequence of digits is one whole digit run.
proof fn lemma_run_full(s: Seq<u8>)
    requires
        forall|k: int| 0 <= k < s.len() ==> is_digit(#[trigger] s[k]),
    ensures
        digit_run(s) == s.len(),
    decreases s.len(),
{
    if s.len() > 0 {
        assert forall|k: int| 0 <= k < s.drop_first().len() implies is_digit(
            #[trigger] s.drop_first()[k],
        ) by {
            assert(s.drop_first()[k] == s[k + 1]);
        }
        lemma_run_full(s.drop_first());
    }
}

/// `FromUtf8Error`, the error type of `new_from_payload`, which never
/// returns it.
#[verifier::external_type_specification]
#[verifier::external_body]
pub struct ExFromUtf8Error(std::string::FromUtf8Error);

/// Reads the optional field at `range` as text.
fn text_field(payload: &[u8], range: Option<ByteRange>) -> (r: (Option<String>, bool))
    ensures
        opt_text(r.0) == match field_bytes(payload@, range) {
            Some(b) => utf8_text(b),
            None => None,
        },
        r.1 == (field_bytes(payload@, range) is Some && r.0 is None),
{
    match range {
        Some(rg) => {
            if payload.len() < rg.end || rg.end < rg.start {
                (None, false)
            } else {
                match utf8_string(copy_range(payload, rg.start, rg.end)) {
                    Some(t) => (Some(t), false),
                    None => (None, true),
                }
            }
        },
        None => (None, false),
    }
}

impl KrxMsg {
    /// Builds the record of `payload`, and says which parts of it could not
    /// be read as text. Fields that cannot be read are left empty; the build
    /// itself never fails.
    pub fn build(
        date: i32,
        payload: &[u8],
        packet_timestamp: Option<UnixNano>,
        timestamp: Option<UnixNano>,
    ) -> (r: (KrxMsg, DecodeIssues))
        ensures
            is_record_of(r.0, date, payload@, packet_timestamp, timestamp),
            r.1.trcode == (utf8_text(payload@.take(TRCODE_LEN as int)) is None || payload@.len()
                < TRCODE_LEN),
            r.1.instcode == (field_bytes(payload@, instcode_range_of(payload@)) is Some
                && instcode_text(payload@) is None),
    {
        let (trcode, bad_trcode) = if payload.len() >= TRCODE_LEN {
            match utf8_string(copy_range(payload, 0, TRCODE_LEN)) {
                Some(t) => (t, false),
                None => (String::new(), true),
            }
        } else {
            (String::new(), true)
        };
        let (instcode, bad_instcode) = text_field(payload, krx_messages_instcode_range(payload));
        let distidx = match krx_message_dist_index_range(payload) {
            Some(rg) => {
                if payload.len() < rg.end || rg.end < rg.start {
                    None
                } else {
                    parse_dist_index(copy_range(payload, rg.start, rg.end).as_slice())
                }
            },
            None => None,
        };
        let msg = KrxMsg {
            date,
            trcode,
            distidx,
            instcode,
            packet_timestamp,
            timestamp,
            payload: copy_range(payload, 0, payload.len()),
        };
        assert(msg.payload@ =~= payload@);
        (msg, DecodeIssues { trcode: bad_trcode, instcode: bad_instcode })
    }

    /// Builds the record of `payload`; always `Ok`.
    pub fn new_from_payload(
        date: i32,
        payload: &[u8],
        packet_timestamp: Option<UnixNano>,
        timestamp: Option<UnixNano>,
    ) -> (r: Result<Self, std::string::FromUtf8Error>)
        ensures
            r matches Ok(m) && is_record_of(m, date, payload@, packet_timestamp, timestamp),
    {
        let (msg, _) = KrxMsg::build(date, payload, packet_timestamp, timestamp);
        Ok(msg)
    }
}

/// A payload that ends before a field's resolved range leaves that field of
/// its record empty.
pub proof fn lemma_short_payload_field_absent(
    m: KrxMsg,
    date: i32,
    payload: Seq<u8>,
    packet_timestamp: Option<UnixNano>,
    timestamp: Option<UnixNano>,
)
    requires
        is_record_of(m, date, payload, packet_timestamp, timestamp),
    ensures
        instcode_range_of(payload) matches Some(r) && payload.len() < r.end ==> m.instcode is None,
        distidx_range_of(payload) matches Some(r) && payload.len() < r.end ==> m.distidx is None,
{
}

/// When the first five bytes of a payload are valid text, the record's
/// message type is exactly that text.
pub proof fn lemma_trcode_is_leading_text(
    m: KrxMsg,
    date: i32,
    payload: Seq<u8>,
    packet_timestamp: Option<UnixNano>,
    timestamp: Option<UnixNano>,
)
    requires
        is_record_of(m, date, payload, packet_timestamp, timestamp),
        payload.len() >= TRCODE_LEN,
        valid_utf8(payload.take(TRCODE_LEN as int)),
    ensures
        m.trcode@ == decode_utf8(payload.take(TRCODE_LEN as int)),
{
}

} // verus!
