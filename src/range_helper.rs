//! Where the instrument code and the distribution index sit in a message,
//! by message type.
//!
//! A message opens with its five-byte type code (`trcode`): two bytes of data
//! category, two of information kind and one of market. The table below gives,
//! for each type this crate understands, the byte ranges of the two fields and
//! the full length of such a message.

use vstd::prelude::*;

verus! {

/// The half-open byte range `start..end`.
#[derive(Clone, Copy, Debug, PartialEq, Eq, Structural)]
pub struct ByteRange {
    pub start: usize,
    pub end: usize,
}

/// The layout of one message type.
#[derive(Clone, Copy, Debug, PartialEq, Eq, Structural)]
pub struct Layout {
    pub instcode: ByteRange,
    pub distidx: ByteRange,
    /// Length of a complete message of this type.
    pub msg_len: usize,
}

/// Length of the type code at the start of every message.
pub const TRCODE_LEN: usize = 5;

/// The five type-code bytes `c`.
pub open spec fn code(c0: u8, c1: u8, c2: u8, c3: u8, c4: u8) -> Seq<u8> {
    seq![c0, c1, c2, c3, c4]
}

/// Futures instrument master (`A001F`).
pub open spec fn master_code() -> Seq<u8> {
    code(0x41, 0x30, 0x30, 0x31, 0x46)
}

/// Futures trade (`A301F`).
pub open spec fn trade_code() -> Seq<u8> {
    code(0x41, 0x33, 0x30, 0x31, 0x46)
}

/// Futures best quotes (`B606F`).
pub open spec fn quote_code() -> Seq<u8> {
    code(0x42, 0x36, 0x30, 0x36, 0x46)
}

/// Futures trade with best quotes (`G703F`).
pub open spec fn trade_quote_code() -> Seq<u8> {
    code(0x47, 0x37, 0x30, 0x33, 0x46)
}

/// The common real-time header: type code, an eight-digit distribution
/// index, board and session identifiers, then the twelve-byte instrument code.
pub open spec fn realtime_layout(msg_len: usize) -> Layout {
    Layout {
        instcode: ByteRange { start: 17, end: 29 },
        distidx: ByteRange { start: 5, end: 13 },
        msg_len,
    }
}

/// The layout table, by type code.
pub open spec fn layout_of(c: Seq<u8>) -> Option<Layout> {
    if c == master_code() {
        Some(
            Layout {
                instcode: ByteRange { start: 21, end: 33 },
                distidx: ByteRange { start: 5, end: 13 },
                msg_len: 1200,
            },
        )
    } else if c == trade_code() {
        Some(realtime_layout(180))
    } else if c == quote_code() {
        Some(realtime_layout(420))
    } else if c == trade_quote_code() {
        Some(realtime_layout(470))
    } else {
        None
    }
}

/// The type-code bytes of a payload, when it is long enough to hold them.
pub open spec fn trcode_of(p: Seq<u8>) -> Option<Seq<u8>> {
    if p.len() >= TRCODE_LEN {
        Some(p.take(TRCODE_LEN as int))
    } else {
        None
    }
}

/// The layout of the payload's message type, if the type is known.
pub open spec fn payload_layout(p: Seq<u8>) -> Option<Layout> {
    match trcode_of(p) {
        Some(c) => layout_of(c),
        None => None,
    }
}

pub open spec fn instcode_range_of(p: Seq<u8>) -> Option<ByteRange> {
    match payload_layout(p) {
        Some(l) => Some(l.instcode),
        None => None,
    }
}

pub open spec fn distidx_range_of(p: Seq<u8>) -> Option<ByteRange> {
    match payload_layout(p) {
        Some(l) => Some(l.distidx),
        None => None,
    }
}

fn code_is(p: &[u8], c0: u8, c1: u8, c2: u8, c3: u8, c4: u8) -> (r: bool)
    requires
        p@.len() >= TRCODE_LEN,
    ensures
        r == (p@.take(TRCODE_LEN as int) == code(c0, c1, c2, c3, c4)),
{
    let r = p[0] == c0 && p[1] == c1 && p[2] == c2 && p[3] == c3 && p[4] == c4;
    if r {
        assert(p@.take(TRCODE_LEN as int) =~= code(c0, c1, c2, c3, c4));
    } else {
        proof {
            let t = p@.take(TRCODE_LEN as int);
            if t == code(c0, c1, c2, c3, c4) {
                assert(t[0] == c0 && t[1] == c1 && t[2] == c2 && t[3] == c3 && t[4] == c4);
            }
        }
    }
    r
}

/// Looks up the layout of the payload's message type.
pub fn krx_message_layout(payload: &[u8]) -> (r: Option<Layout>)
    ensures
        r == payload_layout(payload@),
{
    if payload.len() < TRCODE_LEN {
        None
    } else if code_is(payload, 0x41, 0x30, 0x30, 0x31, 0x46) {
        Some(
            Layout {
                instcode: ByteRange { start: 21, end: 33 },
                distidx: ByteRange { start: 5, end: 13 },
                msg_len: 1200,
            },
        )
    } else if code_is(payload, 0x41, 0x33, 0x30, 0x31, 0x46) {
        Some(Layout { instcode: ByteRange { start: 17, end: 29 }, distidx: ByteRange { start: 5, end: 13 }, msg_len: 180 })
    } else if code_is(payload, 0x42, 0x36, 0x30, 0x36, 0x46) {
        Some(Layout { instcode: ByteRange { start: 17, end: 29 }, distidx: ByteRange { start: 5, end: 13 }, msg_len: 420 })
    } else if code_is(payload, 0x47, 0x37, 0x30, 0x33, 0x46) {
        Some(Layout { instcode: ByteRange { start: 17, end: 29 }, distidx: ByteRange { start: 5, end: 13 }, msg_len: 470 })
    } else {
        None
    }
}

/// The byte range of the instrument code, for a known message type.
pub fn krx_messages_instcode_range(payload: &[u8]) -> (r: Option<ByteRange>)
    ensures
        r == instcode_range_of(payload@),
{
    match krx_message_layout(payload) {
        Some(l) => Some(l.instcode),
        None => None,
    }
}

/// The byte range of the distribution index, for a known message type.
pub fn krx_message_dist_index_range(payload: &[u8]) -> (r: Option<ByteRange>)
    ensures
        r == distidx_range_of(payload@),
{
    match krx_message_layout(payload) {
        Some(l) => Some(l.distidx),
        None => None,
    }
}

/// Every range in the table is well formed and lies inside a complete
/// message of its type.
pub proof fn lemma_ranges_within_message(c: Seq<u8>)
    requires
        layout_of(c) is Some,
    ensures
        ({
            let l = layout_of(c).unwrap();
            &&& l.instcode.start <= l.instcode.end <= l.msg_len
            &&& l.distidx.start <= l.distidx.end <= l.msg_len
            &&& TRCODE_LEN <= l.instcode.start
            &&& TRCODE_LEN <= l.distidx.start
        }),
{
}

} // verus!
