//! Trace and segment identifiers and their hexadecimal text forms.

use crate::time::Seconds;
use vstd::prelude::*;

verus! {

/// Identifier of one unit of work: a 64-bit number, written as 16 hexadecimal digits.
#[derive(Clone, Copy, Debug, PartialEq, Eq, Structural)]
pub struct SegmentId {
    pub value: u64,
}

/// Identifier of one end-to-end request: the creation time in whole epoch
/// seconds (32 bits) and a 96-bit random part, held as its high 32 and low 64
/// bits. Written `1-<8 hex: seconds>-<24 hex: random>`.
#[derive(Clone, Copy, Debug, PartialEq, Eq, Structural)]
pub struct TraceId {
    pub seconds: u32,
    pub random_hi: u32,
    pub random_lo: u64,
}

/// Why a string is not an identifier.
#[derive(Clone, Copy, Debug, PartialEq, Eq, Structural)]
pub enum ParseError {
    /// The string has the wrong number of characters.
    InvalidLength,
    /// A digit position holds something other than a hexadecimal digit.
    InvalidHexDigit,
    /// The version marker or a separator of a trace id is not where it belongs.
    InvalidLayout,
}

/// The canonical text of a segment id.
pub open spec fn segment_text(id: SegmentId) -> Seq<char> {
    hex_digits(id.value as nat, 16)
}

/// The canonical text of a trace id.
pub open spec fn trace_text(t: TraceId) -> Seq<char> {
    seq!['1', '-'] + hex_digits(t.seconds as nat, 8) + seq!['-'] + hex_digits(t.random_hi as nat, 8)
        + hex_digits(t.random_lo as nat, 16)
}

/// What parsing `s` as a segment id gives.
pub open spec fn segment_parse(s: Seq<char>) -> Result<SegmentId, ParseError> {
    if s.len() != 16 {
        Err(ParseError::InvalidLength)
    } else if !all_hex(s) {
        Err(ParseError::InvalidHexDigit)
    } else {
        Ok(SegmentId { value: hex_number(s) as u64 })
    }
}

/// What parsing `s` as a trace id gives.
pub open spec fn trace_parse(s: Seq<char>) -> Result<TraceId, ParseError> {
    if s.len() != 35 {
        Err(ParseError::InvalidLength)
    } else if s[0] != '1' || s[1] != '-' || s[10] != '-' {
        Err(ParseError::InvalidLayout)
    } else if !all_hex(s.subrange(2, 10)) || !all_hex(s.subrange(11, 19)) || !all_hex(
        s.subrange(19, 35),
    ) {
        Err(ParseError::InvalidHexDigit)
    } else {
        Ok(
            TraceId {
                seconds: hex_number(s.subrange(2, 10)) as u32,
                random_hi: hex_number(s.subrange(11, 19)) as u32,
                random_lo: hex_number(s.subrange(19, 35)) as u64,
            },
        )
    }
}

impl SegmentId {
    /// A segment id made from a random 64-bit value.
    pub fn generate(random: u64) -> (r: SegmentId)
        ensures
            r.value == random,
    {
        SegmentId { value: random }
    }

    /// The 16 lower-case hexadecimal digits of the id.
    pub fn format(&self) -> (r: String)
        ensures
            r@ == segment_text(*self),
            r@.len() == 16,
    {
        let mut out = String::new();
        push_hex(&mut out, self.value, 16);
        proof {
            lemma_pow16_64();
            lemma_hex_round_trip(self.value as nat, 16);
        }
        assert(out@ =~= segment_text(*self));
        out
    }

    /// Reads a segment id from its text.
    pub fn parse(s: &str) -> (r: Result<SegmentId, ParseError>)
        ensures
            r == segment_parse(s@),
    {
        let len = s.unicode_len();
        if len != 16 {
            return Err(ParseError::InvalidLength);
        }
        let r = segment_at(s, 0);
        assert(s@.subrange(0, 16) =~= s@);
        r
    }
}

impl TraceId {
    /// A trace id made from the current time and a random value: the whole
    /// seconds of `now`, cut to their low 32 bits, and the low 96 bits of
    /// `random`.
    pub fn generate(now: Seconds, random: u128) -> (r: TraceId)
        ensures
            r.seconds == (now.micros / 1_000_000) % 0x1_0000_0000,
            r.random_hi == (random / 0x1_0000_0000_0000_0000) % 0x1_0000_0000,
            r.random_lo == random % 0x1_0000_0000_0000_0000,
    {
        let seconds = ((now.micros / 1_000_000) % 0x1_0000_0000) as u32;
        let random_hi = ((random / 0x1_0000_0000_0000_0000) % 0x1_0000_0000) as u32;
        let random_lo = (random % 0x1_0000_0000_0000_0000) as u64;
        TraceId { seconds, random_hi, random_lo }
    }

    /// The canonical 35-character text of the id.
    pub fn format(&self) -> (r: String)
        ensures
            r@ == trace_text(*self),
            r@.len() == 35,
    {
        let mut out = String::new();
        push_char(&mut out, '1');
        push_char(&mut out, '-');
        push_hex(&mut out, self.seconds as u64, 8);
        push_char(&mut out, '-');
        push_hex(&mut out, self.random_hi as u64, 8);
        push_hex(&mut out, self.random_lo, 16);
        proof {
            lemma_trace_pieces(*self);
        }
        assert(out@ =~= trace_text(*self));
        out
    }

    /// Reads a trace id from its text.
    pub fn parse(s: &str) -> (r: Result<TraceId, ParseError>)
        ensures
            r == trace_parse(s@),
    {
        let len = s.unicode_len();
        if len != 35 {
            return Err(ParseError::InvalidLength);
        }
        let r = trace_at(s, 0);
        assert(s@.subrange(0, 35) =~= s@);
        r
    }
}

/// Reads the 16 characters of `s` from `start` as a segment id.
pub(crate) fn segment_at(s: &str, start: usize) -> (r: Result<SegmentId, ParseError>)
    requires
        start + 16 <= s@.len() <= usize::MAX,
    ensures
        r == segment_parse(s@.subrange(start as int, start + 16)),
{
    match read_hex(s, start, 16) {
        Some(v) => Ok(SegmentId { value: v }),
        None => Err(ParseError::InvalidHexDigit),
    }
}

/// Reads the 35 characters of `s` from `start` as a trace id.
pub(crate) fn trace_at(s: &str, start: usize) -> (r: Result<TraceId, ParseError>)
    requires
        start + 35 <= s@.len() <= usize::MAX,
    ensures
        r == trace_parse(s@.subrange(start as int, start + 35)),
{
    let ghost t = s@.subrange(start as int, start + 35);
    assert(t.subrange(2, 10) =~= s@.subrange(start + 2, start + 10));
    assert(t.subrange(11, 19) =~= s@.subrange(start + 11, start + 19));
    assert(t.subrange(19, 35) =~= s@.subrange(start + 19, start + 35));
    if s.get_char(start) != '1' || s.get_char(start + 1) != '-' || s.get_char(start + 10) != '-' {
        return Err(ParseError::InvalidLayout);
    }
    let seconds = read_hex(s, start + 2, 8);
    let hi = read_hex(s, start + 11, 8);
    let lo = read_hex(s, start + 19, 16);
    proof {
        lemma_pow16_64();
    }
    match (seconds, hi, lo) {
        (Some(a), Some(b), Some(c)) => Ok(
            TraceId { seconds: a as u32, random_hi: b as u32, random_lo: c },
        ),
        _ => Err(ParseError::InvalidHexDigit),
    }
}

/// The powers of 16 that bound the digit groups of the identifiers.
pub proof fn lemma_pow16_64()
    ensures
        pow16(8) == 0x1_0000_0000,
        pow16(16) == 0x1_0000_0000_0000_0000,
{
    reveal_with_fuel(pow16, 17);
}

/// The pieces of a trace id's text, where they stand and what they spell.
proof fn lemma_trace_pieces(t: TraceId)
    ensures
        trace_text(t).len() == 35,
        trace_text(t).subrange(2, 10) == hex_digits(t.seconds as nat, 8),
        trace_text(t).subrange(11, 19) == hex_digits(t.random_hi as nat, 8),
        trace_text(t).subrange(19, 35) == hex_digits(t.random_lo as nat, 16),
        trace_text(t)[0] == '1',
        trace_text(t)[1] == '-',
        trace_text(t)[10] == '-',
{
    lemma_pow16_64();
    lemma_hex_round_trip(t.seconds as nat, 8);
    lemma_hex_round_trip(t.random_hi as nat, 8);
    lemma_hex_round_trip(t.random_lo as nat, 16);
    let s = trace_text(t);
    assert(s.subrange(2, 10) =~= hex_digits(t.seconds as nat, 8));
    assert(s.subrange(11, 19) =~= hex_digits(t.random_hi as nat, 8));
    assert(s.subrange(19, 35) =~= hex_digits(t.random_lo as nat, 16));
}

/// A segment id's text parses back to the same id and has 16 digits.
pub proof fn lemma_segment_round_trip(id: SegmentId)
    ensures
        segment_text(id).len() == 16,
        segment_parse(segment_text(id)) == Ok::<SegmentId, ParseError>(id),
{
    lemma_pow16_64();
    lemma_hex_round_trip(id.value as nat, 16);
}

/// A trace id's text parses back to the same id and has 35 characters.
pub proof fn lemma_trace_round_trip(t: TraceId)
    ensures
        trace_text(t).len() == 35,
        trace_parse(trace_text(t)) == Ok::<TraceId, ParseError>(t),
{
    lemma_pow16_64();
    lemma_trace_pieces(t);
    lemma_hex_round_trip(t.seconds as nat, 8);
    lemma_hex_round_trip(t.random_hi as nat, 8);
    lemma_hex_round_trip(t.random_lo as nat, 16);
    let s = trace_text(t);
    assert(hex_number(s.subrange(2, 10)) == t.seconds);
    assert(hex_number(s.subrange(11, 19)) == t.random_hi);
    assert(hex_number(s.subrange(19, 35)) == t.random_lo);
    assert(all_hex(s.subrange(2, 10)) && all_hex(s.subrange(11, 19)) && all_hex(s.subrange(19, 35)));
}

/// `16` raised to `n`.
pub open spec fn pow16(n: nat) -> nat
    decreases n,
{
    if n == 0 {
        1
    } else {
        16 * pow16((n - 1) as nat)
    }
}

/// Whether `c` is a hexadecimal digit, in either case.
pub open spec fn is_hex_digit(c: char) -> bool {
    (48 <= c as u32 <= 57) || (97 <= c as u32 <= 102) || (65 <= c as u32 <= 70)
}

/// The value of the hexadecimal digit `c`.
pub open spec fn hex_value(c: char) -> nat {
    if c as u32 <= 57 {
        (c as u32 - 48) as nat
    } else if c as u32 <= 70 {
        (c as u32 - 55) as nat
    } else {
        (c as u32 - 87) as nat
    }
}

/// The lower-case digit of value `d`.
pub open spec fn hex_char(d: nat) -> char {
    if d < 10 {
        (48 + d) as char
    } else {
        (87 + d) as char
    }
}

/// Whether every character of `s` is a hexadecimal digit.
pub open spec fn all_hex(s: Seq<char>) -> bool {
    forall|i: int| 0 <= i < s.len() ==> is_hex_digit(#[trigger] s[i])
}

/// The number that the digits of `s` spell, most significant first.
pub open spec fn hex_number(s: Seq<char>) -> nat
    decreases s.len(),
{
    if s.len() == 0 {
        0
    } else {
        hex_number(s.drop_last()) * 16 + hex_value(s.last())
    }
}

/// The `n` lowest hexadecimal digits of `v`, lower case, most significant first.
pub open spec fn hex_digits(v: nat, n: nat) -> Seq<char>
    decreases n,
{
    if n == 0 {
        Seq::empty()
    } else {
        hex_digits(v / 16, (n - 1) as nat).push(hex_char(v % 16))
    }
}

pub proof fn lemma_pow16_positive(n: nat)
    ensures
        pow16(n) >= 1,
    decreases n,
{
    if n > 0 {
        lemma_pow16_positive((n - 1) as nat);
    }
}

/// `n` digits spell a number below `16^n`.
pub proof fn lemma_hex_number_bound(s: Seq<char>)
    requires
        all_hex(s),
    ensures
        hex_number(s) < pow16(s.len()),
    decreases s.len(),
{
    if s.len() > 0 {
        let p = s.drop_last();
        assert(all_hex(p)) by {
            assert forall|i: int| 0 <= i < p.len() implies is_hex_digit(#[trigger] p[i]) by {
                assert(p[i] == s[i]);
            }
        }
        lemma_hex_number_bound(p);
        assert(is_hex_digit(s[s.len() - 1]));
        let a = hex_number(p);
        let b = hex_value(s.last());
        let q = pow16(p.len());
        assert(a * 16 + b < 16 * q) by (nonlinear_arith)
            requires
                a < q,
                b < 16,
        ;
    }
}

/// Writing `v` in `n` digits and reading the digits back gives `v`.
pub proof fn lemma_hex_round_trip(v: nat, n: nat)
    requires
        v < pow16(n),
    ensures
        hex_digits(v, n).len() == n,
        all_hex(hex_digits(v, n)),
        hex_number(hex_digits(v, n)) == v,
    decreases n,
{
    if n > 0 {
        let q = pow16((n - 1) as nat);
        assert(v / 16 < q) by (nonlinear_arith)
            requires
                v < 16 * q,
        ;
        lemma_hex_round_trip(v / 16, (n - 1) as nat);
        let d = hex_digits(v, n);
        let p = hex_digits(v / 16, (n - 1) as nat);
        assert(d.drop_last() =~= p);
        assert(all_hex(d)) by {
            assert forall|i: int| 0 <= i < d.len() implies is_hex_digit(#[trigger] d[i]) by {
                if i < d.len() - 1 {
                    assert(d[i] == p[i]);
                }
            }
        }
        assert(v == (v / 16) * 16 + v % 16);
    }
}

/// Appends `c` to `s`.
/// Relies on `String::push`, which appends one character to the end.
#[verifier::external_body]
fn push_char(s: &mut String, c: char)
    ensures
        final(s)@ == old(s)@.push(c),
{
    s.push(c)
}

/// The lower-case digit of value `d`.
fn digit_char(d: u64) -> (c: char)
    requires
        d < 16,
    ensures
        c == hex_char(d as nat),
{
    if d < 10 {
        ((48 + d) as u8) as char
    } else {
        ((87 + d) as u8) as char
    }
}

/// Appends the `n` lowest hexadecimal digits of `v` to `out`.
pub(crate) fn push_hex(out: &mut String, v: u64, n: usize)
    requires
        n <= 16,
    ensures
        final(out)@ == old(out)@ + hex_digits(v as nat, n as nat),
    decreases n,
{
    if n == 0 {
        assert(old(out)@ + hex_digits(v as nat, 0) =~= old(out)@);
    } else {
        push_hex(out, v / 16, n - 1);
        push_char(out, digit_char(v % 16));
        assert(final(out)@ =~= old(out)@ + hex_digits(v as nat, n as nat));
    }
}


/// The value of the hexadecimal digit `c`.
fn digit_value(c: char) -> (d: u64)
    requires
        is_hex_digit(c),
    ensures
        d as nat == hex_value(c),
        d < 16,
{
    let n = c as u32;
    if n <= 57 {
        (n - 48) as u64
    } else if n <= 70 {
        (n - 55) as u64
    } else {
        (n - 87) as u64
    }
}

/// Reads the `n` characters of `s` from `start` as a hexadecimal number;
/// `None` where one of them is not a hexadecimal digit.
pub(crate) fn read_hex(s: &str, start: usize, n: usize) -> (r: Option<u64>)
    requires
        n <= 16,
        start + n <= s@.len() <= usize::MAX,
    ensures
        r == (if all_hex(s@.subrange(start as int, start + n)) {
            Some(hex_number(s@.subrange(start as int, start + n)) as u64)
        } else {
            None
        }),
        r is Some ==> hex_number(s@.subrange(start as int, start + n)) < pow16(n as nat),
{
    let ghost whole = s@.subrange(start as int, start + n);
    let mut acc: u64 = 0;
    let mut i: usize = 0;
    while i < n
        invariant
            i <= n <= 16,
            start + n <= s@.len() <= usize::MAX,
            whole == s@.subrange(start as int, start + n),
            all_hex(whole.subrange(0, i as int)),
            acc as nat == hex_number(whole.subrange(0, i as int)),
            acc < pow16(i as nat),
        decreases n - i,
    {
        let c = s.get_char(start + i);
        assert(c == whole[i as int]);
        if !is_hex_char(c) {
            assert(!all_hex(whole)) by {
                assert(!is_hex_digit(whole[i as int]));
            }
            return None;
        }
        let d = digit_value(c);
        let ghost pre = whole.subrange(0, i as int);
        let ghost next = whole.subrange(0, i + 1);
        assert(next.drop_last() =~= pre);
        assert(all_hex(next)) by {
            assert forall|k: int| 0 <= k < next.len() implies is_hex_digit(#[trigger] next[k]) by {
                if k < i {
                    assert(next[k] == pre[k]);
                }
            }
        }
        proof {
            lemma_pow16_bound(i as nat);
            let a = acc as nat;
            let q = pow16(i as nat);
            assert(a * 16 + d < 16 * q) by (nonlinear_arith)
                requires
                    a < q,
                    d < 16,
            ;
            assert(16 * q <= 0x1_0000_0000_0000_0000) by (nonlinear_arith)
                requires
                    q <= 0x1000_0000_0000_0000,
            ;
        }
        acc = acc * 16 + d;
        i = i + 1;
    }
    assert(whole.subrange(0, n as int) =~= whole);
    Some(acc)
}

/// Whether `c` is a hexadecimal digit, in either case.
fn is_hex_char(c: char) -> (r: bool)
    ensures
        r == is_hex_digit(c),
{
    let n = c as u32;
    (48 <= n && n <= 57) || (97 <= n && n <= 102) || (65 <= n && n <= 70)
}

/// `16^n` fits the digits below 16 of a `u64`.
pub proof fn lemma_pow16_bound(n: nat)
    requires
        n < 16,
    ensures
        pow16(n) <= 0x1000_0000_0000_0000,
    decreases 16 - n,
{
    reveal_with_fuel(pow16, 16);
    if n < 15 {
        lemma_pow16_bound(n + 1);
        lemma_pow16_positive(n);
    }
}

} // verus!
