//! Human-readable rendering of a record, for diagnostics.

use vstd::prelude::*;

verus! {

use crate::krx_msg::{opt_int, opt_text, KrxMsg};
use crate::text::{copy_range, push_char};

/// What `encoding_rs::EUC_KR.decode` makes of the bytes: the EUC-KR text
/// they encode, with U+FFFD for malformed sequences.
pub uninterp spec fn euc_kr_text(b: Seq<u8>) -> Seq<char>;

/// Relies on `encoding_rs::Encoding::decode` with `EUC_KR`: decodes the bytes
/// as EUC-KR, replacing malformed sequences; the text depends on the bytes
/// alone.
#[verifier::external_body]
fn euc_kr_decode(bytes: &[u8]) -> (r: String)
    ensures
        r@ == euc_kr_text(bytes@),
{
    encoding_rs::EUC_KR.decode(bytes).0.into_owned()
}

/// Relies on `String::push_str`: appends the text.
#[verifier::external_body]
fn push_str(s: &mut String, t: &str)
    ensures
        final(s)@ == old(s)@ + t@,
{
    s.push_str(t)
}

pub open spec fn digit_char(d: nat) -> char {
    ((d % 10) + 0x30) as char
}

/// The decimal digits of `n`, most significant first.
pub open spec fn dec(n: nat) -> Seq<char>
    decreases n,
{
    if n < 10 {
        seq![digit_char(n)]
    } else {
        dec(n / 10).push(digit_char(n % 10))
    }
}

/// `s` with zeros in front, up to `width` characters.
pub open spec fn zero_pad(s: Seq<char>, width: nat) -> Seq<char> {
    if s.len() >= width {
        s
    } else {
        Seq::new((width - s.len()) as nat, |i: int| '0') + s
    }
}

/// An integer as `format!("{:0w$}", v)` writes it: the sign counts towards
/// the width and the zeros go after it.
pub open spec fn int_text(v: int, width: nat) -> Seq<char> {
    if v < 0 {
        seq!['-'] + zero_pad(dec((-v) as nat), if width > 0 { (width - 1) as nat } else { 0 })
    } else {
        zero_pad(dec(v as nat), width)
    }
}

/// Division rounding towards zero, as Rust's `/` on integers.
pub open spec fn tdiv(a: int, b: int) -> int {
    if a >= 0 {
        a / b
    } else {
        -((-a) / b)
    }
}

/// The remainder that goes with `tdiv`, as Rust's `%` on integers.
pub open spec fn trem(a: int, b: int) -> int {
    a - b * tdiv(a, b)
}

/// A `yyyymmdd` date as `yyyy-mm-dd`.
pub open spec fn date_text(date: int) -> Seq<char> {
    int_text(tdiv(date, 10000), 4) + seq!['-'] + int_text(tdiv(trem(date, 10000), 100), 2)
        + seq!['-'] + int_text(trem(date, 100), 2)
}

pub open spec fn opt_int_text(o: Option<int>) -> Seq<char> {
    match o {
        Some(v) => int_text(v, 0),
        None => "None"@,
    }
}

pub open spec fn opt_str_text(o: Option<Seq<char>>) -> Seq<char> {
    match o {
        Some(v) => v,
        None => "None"@,
    }
}

/// The payload bytes shown in a rendering: all but the last, a terminator.
pub open spec fn preview_bytes(p: Seq<u8>) -> Seq<u8> {
    if p.len() > 0 {
        p.drop_last()
    } else {
        p
    }
}

pub open spec fn opt_nano(o: Option<u64>) -> Option<int> {
    match o {
        Some(v) => Some(v as int),
        None => None,
    }
}

/// The rendering of `m`, with `preview` standing for its payload.
pub open spec fn render(m: KrxMsg, preview: Seq<char>) -> Seq<char> {
    "KrxMsg {\n  date: "@ + date_text(m.date as int)
        + "\n  trcode: "@ + m.trcode@
        + "\n  distidx: "@ + opt_int_text(opt_int(m.distidx))
        + "\n instcode: "@ + opt_str_text(opt_text(m.instcode))
        + "\n  packet_timestamp: "@ + opt_int_text(opt_nano(m.packet_timestamp))
        + "\n  timestamp: "@ + opt_int_text(opt_nano(m.timestamp))
        + "\n  payload: "@ + preview + " ("@ + dec(m.payload@.len()) + " bytes)\n}"@
}

fn push_dec(s: &mut String, n: u64)
    ensures
        final(s)@ == old(s)@ + dec(n as nat),
    decreases n,
{
    if n >= 10 {
        push_dec(s, n / 10);
    }
    push_char(s, ((n % 10) as u8 + 0x30) as char);
    assert(final(s)@ =~= old(s)@ + dec(n as nat)) by {
        if n >= 10 {
            assert(dec(n as nat) == dec((n / 10) as nat).push(digit_char((n % 10) as nat)));
        }
    }
}

pub open spec fn pow10(k: nat) -> nat
    decreases k,
{
    if k == 0 {
        1
    } else {
        10 * pow10((k - 1) as nat)
    }
}

proof fn lemma_dec_len_bound(n: nat, k: nat)
    requires
        k >= 1,
        n < pow10(k),
    ensures
        dec(n).len() <= k,
    decreases k,
{
    if n >= 10 {
        assert(k >= 2) by {
            if k == 1 {
                reveal_with_fuel(pow10, 2);
            }
        }
        lemma_dec_len_bound(n / 10, (k - 1) as nat);
    }
}

fn dec_len(n: u64) -> (r: usize)
    ensures
        r == dec(n as nat).len(),
    decreases n,
{
    proof {
        reveal_with_fuel(pow10, 21);
        if n >= 10 {
            lemma_dec_len_bound((n / 10) as nat, 20);
        }
    }
    if n >= 10 {
        dec_len(n / 10) + 1
    } else {
        1
    }
}

/// Writes `n` in decimal, zero-padded to `width`.
fn push_padded(s: &mut String, n: u64, width: usize)
    ensures
        final(s)@ == old(s)@ + zero_pad(dec(n as nat), width as nat),
{
    let len = dec_len(n);
    let ghost s0 = s@;
    if len < width {
        let mut k: usize = 0;
        while k < width - len
            invariant
                len < width,
                k <= width - len,
                s@ == s0 + Seq::new(k as nat, |i: int| '0'),
            decreases width - len - k,
        {
            push_char(s, '0');
            assert(s@ =~= s0 + Seq::new((k + 1) as nat, |i: int| '0'));
            k = k + 1;
        }
    }
    push_dec(s, n);
    assert(s@ =~= s0 + zero_pad(dec(n as nat), width as nat));
}

/// Writes `v` as `format!("{:0w$}", v)` does.
fn push_int(s: &mut String, v: i64, width: usize)
    requires
        v > i64::MIN,
    ensures
        final(s)@ == old(s)@ + int_text(v as int, width as nat),
{
    let ghost s0 = s@;
    if v < 0 {
        push_char(s, '-');
        let w: usize = if width > 0 { width - 1 } else { 0 };
        push_padded(s, (-v) as u64, w);
        assert(s@ =~= s0 + int_text(v as int, width as nat));
    } else {
        push_padded(s, v as u64, width);
    }
}

fn push_opt_dec(s: &mut String, o: Option<u64>)
    ensures
        final(s)@ == old(s)@ + opt_int_text(opt_nano(o)),
{
    match o {
        Some(v) => push_padded(s, v, 0),
        None => push_str(s, "None"),
    }
}

fn push_date(s: &mut String, date: i32)
    ensures
        final(s)@ == old(s)@ + date_text(date as int),
{
    let ghost s0 = s@;
    let a = date as i64;
    let y: i64 = if a >= 0 { a / 10000 } else { -((-a) / 10000) };
    let ry = a - 10000 * y;
    let m: i64 = if ry >= 0 { ry / 100 } else { -((-ry) / 100) };
    let dq: i64 = if a >= 0 { a / 100 } else { -((-a) / 100) };
    let d = a - 100 * dq;
    push_int(s, y, 4);
    push_char(s, '-');
    push_int(s, m, 2);
    push_char(s, '-');
    push_int(s, d, 2);
    assert(s@ =~= s0 + date_text(date as int));
}

impl KrxMsg {
    /// Renders the record with `preview` standing for its payload.
    pub fn render_with_preview(&self, preview: &str) -> (r: String)
        ensures
            r@ == render(*self, preview@),
    {
        let mut s = String::new();
        push_str(&mut s, "KrxMsg {\n  date: ");
        push_date(&mut s, self.date);
        push_str(&mut s, "\n  trcode: ");
        push_str(&mut s, self.trcode.as_str());
        push_str(&mut s, "\n  distidx: ");
        match self.distidx {
            Some(v) => push_int(&mut s, v as i64, 0),
            None => push_str(&mut s, "None"),
        }
        push_str(&mut s, "\n instcode: ");
        match &self.instcode {
            Some(t) => push_str(&mut s, t.as_str()),
            None => push_str(&mut s, "None"),
        }
        push_str(&mut s, "\n  packet_timestamp: ");
        push_opt_dec(&mut s, self.packet_timestamp);
        push_str(&mut s, "\n  timestamp: ");
        push_opt_dec(&mut s, self.timestamp);
        push_str(&mut s, "\n  payload: ");
        push_str(&mut s, preview);
        push_str(&mut s, " (");
        push_padded(&mut s, self.payload.len() as u64, 0);
        push_str(&mut s, " bytes)\n}");
        assert(s@ =~= render(*self, preview@));
        s
    }

    /// Renders the record, showing its payload but the last byte decoded as
    /// EUC-KR.
    pub fn to_string(&self) -> (r: String)
        ensures
            r@ == render(*self, euc_kr_text(preview_bytes(self.payload@))),
    {
        let n = self.payload.len();
        let end: usize = if n > 0 { n - 1 } else { 0 };
        let shown = copy_range(self.payload.as_slice(), 0, end);
        assert(shown@ =~= preview_bytes(self.payload@));
        let preview = euc_kr_decode(shown.as_slice());
        self.render_with_preview(preview.as_str())
    }
}

} // verus!
