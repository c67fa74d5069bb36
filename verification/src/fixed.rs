//! Fixed-point decimal numbers and their wire format.
//!
//! The instrument's protocol carries signed decimal numbers: positions in
//! millimetres with a fractional part (`X:12.50`), and speeds for test runs.
//! The core models such a number as an integer count of hundredths, which
//! keeps every value exact.  This module defines the type together with the
//! rendering used when encoding commands and the decoding used on telemetry
//! payloads, and proves that decoding inverts rendering.

use vstd::prelude::*;
use crate::error::DriverError;

verus! {

/// ASCII `-`.
pub const BYTE_MINUS: u8 = 45;
/// ASCII `.`.
pub const BYTE_DOT: u8 = 46;
/// ASCII `0`.
pub const BYTE_ZERO: u8 = 48;
/// ASCII `9`.
pub const BYTE_NINE: u8 = 57;

/// A signed decimal number with two fractional digits, stored as a count of
/// hundredths.  Positions are hundredths of a millimetre, speeds hundredths
/// of a millimetre per second.
#[derive(Clone, Copy, Debug, PartialEq, Eq, Structural)]
pub struct Fixed {
    /// The value scaled by one hundred: `12.50` is stored as `1250`.
    pub hundredths: i64,
}

impl Fixed {
    /// The mathematical value of this number, in hundredths.
    pub open spec fn as_int(self) -> int {
        self.hundredths as int
    }
}

/// Whether `b` is an ASCII decimal digit.
pub open spec fn spec_is_digit(b: u8) -> bool {
    BYTE_ZERO <= b <= BYTE_NINE
}

/// The numeric value of the digit `b` (zero for non-digits, so that digit
/// runs always evaluate to a non-negative number).
pub open spec fn spec_digit_val(b: u8) -> nat {
    if spec_is_digit(b) {
        (b - BYTE_ZERO) as nat
    } else {
        0
    }
}

/// Whether every byte of `s` is an ASCII decimal digit.
pub open spec fn spec_all_digits(s: Seq<u8>) -> bool {
    forall|i: int| 0 <= i < s.len() ==> spec_is_digit(#[trigger] s[i])
}

/// The number denoted by the digit run `s`, read most significant first.
pub open spec fn spec_dec_val(s: Seq<u8>) -> nat
    decreases s.len(),
{
    if s.len() == 0 {
        0
    } else {
        spec_dec_val(s.drop_last()) * 10 + spec_digit_val(s.last())
    }
}

/// The shortest decimal rendering of `n`: no leading zeros, a single `0`
/// for zero itself.
pub open spec fn spec_dec_digits(n: nat) -> Seq<u8>
    decreases n,
{
    if n < 10 {
        seq![(BYTE_ZERO + n) as u8]
    } else {
        spec_dec_digits(n / 10).push((BYTE_ZERO + n % 10) as u8)
    }
}

/// The wire rendering of the number `v` (in hundredths): an optional minus
/// sign, the integer part without leading zeros, a dot, and exactly two
/// fractional digits, e.g. `-3.07`.
pub open spec fn spec_format_fixed(v: int) -> Seq<u8> {
    let m = (if v >= 0 { v } else { -v }) as nat;
    let sign: Seq<u8> = if v < 0 { seq![BYTE_MINUS] } else { Seq::empty() };
    sign + spec_dec_digits(m / 100) + seq![BYTE_DOT] + seq![
        (BYTE_ZERO + (m / 10) % 10) as u8,
        (BYTE_ZERO + m % 10) as u8,
    ]
}

/// The largest magnitude, in hundredths, that a non-negative parsed number
/// may take: `i64::MAX`.
pub const MAG_LIMIT_POS: u64 = 9223372036854775807;
/// The largest magnitude, in hundredths, that a negative parsed number may
/// take: the absolute value of `i64::MIN`.
pub const MAG_LIMIT_NEG: u64 = 9223372036854775808;

/// The index of the first dot in `s`, or `s.len()` if there is none.
pub open spec fn spec_dot_index(s: Seq<u8>) -> int
    decreases s.len(),
{
    if s.len() == 0 {
        0
    } else if s[0] == BYTE_DOT {
        0
    } else {
        1 + spec_dot_index(s.drop_first())
    }
}

/// The value, in hundredths, of the fractional digit run `fp`: only the
/// first two digits are significant, further digits are truncated away.
pub open spec fn spec_frac2(fp: Seq<u8>) -> nat {
    (if fp.len() >= 1 { spec_digit_val(fp[0]) * 10 } else { 0 }) + (if fp.len() >= 2 {
        spec_digit_val(fp[1])
    } else {
        0
    })
}

/// The magnitude, in hundredths, denoted by the unsigned payload `s`:
/// a non-empty digit run, optionally followed by a dot and a (possibly
/// empty) digit run.  `None` when `s` is not of that shape.
pub open spec fn spec_parse_mag100(s: Seq<u8>) -> Option<nat> {
    let k = spec_dot_index(s);
    if k == s.len() {
        if s.len() > 0 && spec_all_digits(s) {
            Some(spec_dec_val(s) * 100)
        } else {
            None
        }
    } else {
        let ip = s.subrange(0, k);
        let fp = s.subrange(k + 1, s.len() as int);
        if k > 0 && spec_all_digits(ip) && spec_all_digits(fp) {
            Some(spec_dec_val(ip) * 100 + spec_frac2(fp))
        } else {
            None
        }
    }
}

/// The value, in hundredths, denoted by the token `s`: an optional minus
/// sign followed by an unsigned decimal payload.  `None` when malformed or
/// when the value does not fit a 64-bit count of hundredths.
pub open spec fn spec_parse_fixed(s: Seq<u8>) -> Option<int> {
    if s.len() > 0 && s[0] == BYTE_MINUS {
        match spec_parse_mag100(s.subrange(1, s.len() as int)) {
            Some(m) => if m <= MAG_LIMIT_NEG { Some(-(m as int)) } else { None },
            None => None,
        }
    } else {
        match spec_parse_mag100(s) {
            Some(m) => if m <= MAG_LIMIT_POS { Some(m as int) } else { None },
            None => None,
        }
    }
}

/// The value denoted by the integer token `s`: an optional minus sign
/// followed by a non-empty digit run.  `None` when malformed or when the
/// value does not fit an `i32`.
pub open spec fn spec_parse_i32(s: Seq<u8>) -> Option<int> {
    if s.len() > 0 && s[0] == BYTE_MINUS {
        let d = s.subrange(1, s.len() as int);
        if d.len() > 0 && spec_all_digits(d) && spec_dec_val(d) <= 2147483648 {
            Some(-(spec_dec_val(d) as int))
        } else {
            None
        }
    } else {
        if s.len() > 0 && spec_all_digits(s) && spec_dec_val(s) <= 2147483647 {
            Some(spec_dec_val(s) as int)
        } else {
            None
        }
    }
}

/// A digit run's value only grows as more digits are appended.
proof fn lemma_dec_val_prefix(s: Seq<u8>, i: int)
    requires
        0 <= i <= s.len(),
    ensures
        spec_dec_val(s.subrange(0, i)) <= spec_dec_val(s),
    decreases s.len(),
{
    if i == s.len() {
        assert(s.subrange(0, i) =~= s);
    } else {
        lemma_dec_val_prefix(s.drop_last(), i);
        assert(s.drop_last().subrange(0, i) =~= s.subrange(0, i));
    }
}

/// `spec_dot_index` is the index of the first dot.
proof fn lemma_dot_index_first(s: Seq<u8>, k: int)
    requires
        0 <= k <= s.len(),
        forall|j: int| 0 <= j < k ==> s[j] != BYTE_DOT,
        k < s.len() ==> s[k] == BYTE_DOT,
    ensures
        spec_dot_index(s) == k,
    decreases s.len(),
{
    if s.len() == 0 {
    } else if s[0] == BYTE_DOT {
        assert(k == 0);
    } else {
        assert(k >= 1);
        lemma_dot_index_first(s.drop_first(), k - 1);
    }
}

/// The decimal rendering of `n` is a non-empty digit run that evaluates
/// back to `n`.
proof fn lemma_dec_digits_props(n: nat)
    ensures
        spec_all_digits(spec_dec_digits(n)),
        spec_dec_digits(n).len() >= 1,
        spec_dec_val(spec_dec_digits(n)) == n,
    decreases n,
{
    if n < 10 {
        let s = spec_dec_digits(n);
        assert(s.drop_last() =~= Seq::<u8>::empty());
        assert(spec_dec_val(s.drop_last()) == 0);
        assert(s.last() == (BYTE_ZERO + n) as u8);
        assert(spec_digit_val((BYTE_ZERO + n) as u8) == n);
    } else {
        lemma_dec_digits_props(n / 10);
        let s = spec_dec_digits(n);
        assert(s.drop_last() =~= spec_dec_digits(n / 10));
        assert(spec_dec_val(s) == (n / 10) * 10 + n % 10);
        assert((n / 10) * 10 + n % 10 == n);
        assert forall|i: int| 0 <= i < s.len() implies spec_is_digit(#[trigger] s[i]) by {
            if i < s.len() - 1 {
                assert(s[i] == spec_dec_digits(n / 10)[i]);
            }
        }
    }
}

/// Evaluates the digit run `tok[from..to]`.  Yields its value when every
/// byte is a digit and the value is at most `MAG_LIMIT_NEG`; `None`
/// otherwise.
fn dec_run_value(tok: &Vec<u8>, from: usize, to: usize) -> (r: Option<u64>)
    requires
        from <= to <= tok@.len(),
    ensures
        ({
            let seg = tok@.subrange(from as int, to as int);
            match r {
                Some(v) => spec_all_digits(seg) && v as nat == spec_dec_val(seg) && v
                    <= MAG_LIMIT_NEG,
                None => !spec_all_digits(seg) || spec_dec_val(seg) > MAG_LIMIT_NEG,
            }
        }),
{
    let ghost seg = tok@.subrange(from as int, to as int);
    let mut acc: u128 = 0;
    let mut j: usize = from;
    while j < to
        invariant
            from <= j <= to <= tok@.len(),
            seg == tok@.subrange(from as int, to as int),
            spec_all_digits(tok@.subrange(from as int, j as int)),
            acc as nat == spec_dec_val(tok@.subrange(from as int, j as int)),
            acc <= MAG_LIMIT_NEG as u128,
        decreases to - j,
    {
        let b = tok[j];
        if b < BYTE_ZERO || b > BYTE_NINE {
            assert(seg[j - from] == b);
            return None;
        }
        let d = (b - BYTE_ZERO) as u128;
        acc = acc * 10 + d;
        proof {
            let pre = tok@.subrange(from as int, j as int);
            let post = tok@.subrange(from as int, j + 1 as int);
            assert(post.drop_last() =~= pre);
            assert(post.last() == b);
            assert forall|i: int| 0 <= i < post.len() implies spec_is_digit(
                #[trigger] post[i],
            ) by {
                if i < post.len() - 1 {
                    assert(post[i] == pre[i]);
                }
            }
        }
        j = j + 1;
        if acc > MAG_LIMIT_NEG as u128 {
            proof {
                lemma_dec_val_prefix(seg, j - from);
                assert(seg.subrange(0, j - from) =~= tok@.subrange(from as int, j as int));
            }
            return None;
        }
    }
    proof {
        assert(tok@.subrange(from as int, j as int) =~= seg);
    }
    Some(acc as u64)
}

/// Appends the decimal digits of `n` to `out`.
fn push_dec_digits(out: &mut Vec<u8>, n: u64)
    ensures
        final(out)@ == old(out)@ + spec_dec_digits(n as nat),
    decreases n,
{
    if n < 10 {
        out.push(BYTE_ZERO + n as u8);
        assert(out@ =~= old(out)@ + spec_dec_digits(n as nat));
    } else {
        push_dec_digits(out, n / 10);
        out.push(BYTE_ZERO + (n % 10) as u8);
        assert(out@ =~= old(out)@ + spec_dec_digits(n as nat));
    }
}

/// Decodes the token `tok` as a fixed-point number in the wire format.
/// Succeeds exactly on the tokens that `spec_parse_fixed` accepts, and then
/// returns exactly the value it denotes.
#[verifier::rlimit(50)]
#[verifier::loop_isolation(false)]
pub fn parse_fixed(tok: &Vec<u8>) -> (r: Result<Fixed, DriverError>)
    ensures
        match r {
            Ok(f) => spec_parse_fixed(tok@) == Some(f.as_int()),
            Err(e) => spec_parse_fixed(tok@) is None && e == DriverError::ParseError,
        },
{
    let n = tok.len();
    let neg = n > 0 && tok[0] == BYTE_MINUS;
    let start: usize = if neg {
        1
    } else {
        0
    };
    let ghost u = tok@.subrange(start as int, n as int);
    proof {
        if !neg {
            assert(u =~= tok@);
        }
    }
    // Find the first dot of the unsigned payload.
    let mut k: usize = start;
    while k < n && tok[k] != BYTE_DOT
        invariant
            start <= k <= n == tok@.len(),
            forall|j: int| start <= j < k ==> tok@[j] != BYTE_DOT,
        decreases n - k,
    {
        k = k + 1;
    }
    proof {
        lemma_dot_index_first(u, k - start);
        assert(spec_dot_index(u) == k - start);
    }
    if k == start {
        // Empty integer part (or an empty token altogether).
        return Err(DriverError::ParseError);
    }
    let ipv: u64 = match dec_run_value(tok, start, k) {
        Some(v) => v,
        None => {
            proof {
                let ip = u.subrange(0, k - start);
                assert(ip =~= tok@.subrange(start as int, k as int));
                if k == n {
                    assert(u =~= tok@.subrange(start as int, k as int));
                }
                if spec_all_digits(ip) {
                    // The run was all digits, so its value overflowed; the
                    // denoted magnitude is then far beyond either limit.
                    assert(spec_dec_val(ip) > MAG_LIMIT_NEG);
                    assert(spec_dec_val(ip) * 100 >= spec_dec_val(ip));
                }
            }
            return Err(DriverError::ParseError);
        },
    };
    proof {
        assert(u.subrange(0, k - start) =~= tok@.subrange(start as int, k as int));
        if k == n {
            assert(u =~= tok@.subrange(start as int, k as int));
        }
    }
    let mut f2: u64 = 0;
    if k < n {
        let ghost fp = u.subrange(k - start + 1, u.len() as int);
        proof {
            assert(fp =~= tok@.subrange(k + 1 as int, n as int));
        }
        let mut j: usize = k + 1;
        while j < n
            invariant
                k + 1 <= j <= n == tok@.len(),
                k < n,
                start <= k,
                fp == tok@.subrange(k + 1 as int, n as int),
                spec_all_digits(tok@.subrange(k + 1 as int, j as int)),
                f2 as nat == (if j > k + 1 {
                    spec_digit_val(tok@[k + 1]) * 10
                } else {
                    0
                }) + (if j > k + 2 {
                    spec_digit_val(tok@[k + 2])
                } else {
                    0
                }),
            decreases n - j,
        {
            let b = tok[j];
            if b < BYTE_ZERO || b > BYTE_NINE {
                assert(fp[j - (k + 1)] == b);
                return Err(DriverError::ParseError);
            }
            if j == k + 1 {
                f2 = ((b - BYTE_ZERO) as u64) * 10;
            } else if j == k + 2 {
                f2 = f2 + (b - BYTE_ZERO) as u64;
            }
            proof {
                let pre = tok@.subrange(k + 1 as int, j as int);
                let post = tok@.subrange(k + 1 as int, j + 1 as int);
                assert(post.drop_last() =~= pre);
                assert forall|i: int| 0 <= i < post.len() implies spec_is_digit(
                    #[trigger] post[i],
                ) by {
                    if i < post.len() - 1 {
                        assert(post[i] == pre[i]);
                    }
                }
            }
            j = j + 1;
        }
        proof {
            assert(tok@.subrange(k + 1 as int, j as int) =~= fp);
            assert(f2 as nat == spec_frac2(fp));
        }
    }
    // Assemble the magnitude in hundredths; `ipv <= 2^63`, so this cannot
    // overflow a 128-bit intermediate.
    let mag: u128 = (ipv as u128) * 100 + (f2 as u128);
    proof {
        assert(spec_parse_mag100(u) == Some((mag as nat)));
    }
    if neg {
        if mag > MAG_LIMIT_NEG as u128 {
            return Err(DriverError::ParseError);
        }
        let h: i64 = if mag == MAG_LIMIT_NEG as u128 {
            i64::MIN
        } else {
            -((mag as u64) as i64)
        };
        Ok(Fixed { hundredths: h })
    } else {
        if mag > MAG_LIMIT_POS as u128 {
            return Err(DriverError::ParseError);
        }
        Ok(Fixed { hundredths: (mag as u64) as i64 })
    }
}

/// Decodes the token `tok` as a signed integer.  Succeeds exactly on the
/// tokens that `spec_parse_i32` accepts, and then returns exactly the value
/// it denotes.
pub fn parse_i32(tok: &Vec<u8>) -> (r: Result<i32, DriverError>)
    ensures
        match r {
            Ok(t) => spec_parse_i32(tok@) == Some(t as int),
            Err(e) => spec_parse_i32(tok@) is None && e == DriverError::ParseError,
        },
{
    let n = tok.len();
    let neg = n > 0 && tok[0] == BYTE_MINUS;
    let start: usize = if neg {
        1
    } else {
        0
    };
    let ghost d = tok@.subrange(start as int, n as int);
    proof {
        if !neg {
            assert(d =~= tok@);
        }
    }
    if start == n {
        return Err(DriverError::ParseError);
    }
    let v: u64 = match dec_run_value(tok, start, n) {
        Some(v) => v,
        None => {
            proof {
                assert(d =~= tok@.subrange(start as int, n as int));
            }
            return Err(DriverError::ParseError);
        },
    };
    proof {
        assert(d =~= tok@.subrange(start as int, n as int));
    }
    if neg {
        if v > 2147483648 {
            return Err(DriverError::ParseError);
        }
        let t: i32 = if v == 2147483648 {
            i32::MIN
        } else {
            -((v as u32) as i32)
        };
        Ok(t)
    } else {
        if v > 2147483647 {
            return Err(DriverError::ParseError);
        }
        Ok((v as u32) as i32)
    }
}

/// Renders `v` in the wire format: sign, integer part, dot, two fractional
/// digits.
pub fn format_fixed(v: Fixed) -> (r: Vec<u8>)
    ensures
        r@ == spec_format_fixed(v.as_int()),
{
    let mut out: Vec<u8> = Vec::new();
    let m: u64 = if v.hundredths >= 0 {
        v.hundredths as u64
    } else {
        out.push(BYTE_MINUS);
        // Negate via `+ 1` so that the most negative value has a magnitude.
        ((-(v.hundredths + 1)) as u64) + 1
    };
    assert(m as nat == (if v.as_int() >= 0 { v.as_int() } else { -v.as_int() }) as nat);
    push_dec_digits(&mut out, m / 100);
    out.push(BYTE_DOT);
    out.push(BYTE_ZERO + ((m / 10) % 10) as u8);
    out.push(BYTE_ZERO + (m % 10) as u8);
    assert(out@ =~= spec_format_fixed(v.as_int()));
    out
}

/// Decoding inverts rendering: the wire rendering of any 64-bit count of
/// hundredths decodes back to exactly that value.  Together with the
/// contracts of `format_fixed` and `parse_fixed` this gives the round trip
/// between an encoded command payload and a telemetry payload carrying the
/// same number.
pub proof fn lemma_format_parse_roundtrip(v: i64)
    ensures
        spec_parse_fixed(spec_format_fixed(v as int)) == Some(v as int),
{
    let m = (if v >= 0 {
        v as int
    } else {
        -(v as int)
    }) as nat;
    let dd = spec_dec_digits(m / 100);
    lemma_dec_digits_props(m / 100);
    let a = (BYTE_ZERO + (m / 10) % 10) as u8;
    let b = (BYTE_ZERO + m % 10) as u8;
    let u = dd + seq![BYTE_DOT] + seq![a, b];
    let s = spec_format_fixed(v as int);
    assert forall|j: int| 0 <= j < dd.len() implies u[j] != BYTE_DOT by {
        assert(u[j] == dd[j]);
        assert(spec_is_digit(dd[j]));
    }
    assert(u[dd.len() as int] == BYTE_DOT);
    lemma_dot_index_first(u, dd.len() as int);
    assert(u.subrange(0, dd.len() as int) =~= dd);
    let fp = u.subrange(dd.len() as int + 1, u.len() as int);
    assert(fp =~= seq![a, b]);
    assert(spec_is_digit(a) && spec_is_digit(b));
    assert(spec_all_digits(fp));
    assert(spec_frac2(fp) == ((m / 10) % 10) * 10 + m % 10);
    assert(m % 100 == ((m / 10) % 10) * 10 + m % 10) by (nonlinear_arith);
    assert((m / 100) * 100 + m % 100 == m);
    assert(spec_parse_mag100(u) == Some(m));
    if v >= 0 {
        assert(s =~= u);
        assert(s[0] == dd[0]);
        assert(spec_is_digit(dd[0]));
        assert(s[0] != BYTE_MINUS);
        assert(m <= MAG_LIMIT_POS);
    } else {
        assert(s =~= seq![BYTE_MINUS] + u);
        assert(s[0] == BYTE_MINUS);
        assert(s.subrange(1, s.len() as int) =~= u);
        assert(m <= MAG_LIMIT_NEG);
    }
}

/// Every byte of the wire rendering of a number is a minus sign, a dot, or
/// a decimal digit — in particular, never whitespace and never a line
/// break, so a rendered number always stays one whole token.
pub proof fn lemma_format_fixed_bytes(v: int)
    ensures
        forall|i: int|
            0 <= i < spec_format_fixed(v).len() ==> (#[trigger] spec_format_fixed(v)[i]
                == BYTE_MINUS || spec_format_fixed(v)[i] == BYTE_DOT || spec_is_digit(
                spec_format_fixed(v)[i],
            )),
{
    let m = (if v >= 0 {
        v
    } else {
        -v
    }) as nat;
    let dd = spec_dec_digits(m / 100);
    lemma_dec_digits_props(m / 100);
    let s = spec_format_fixed(v);
    let off: int = if v < 0 {
        1
    } else {
        0
    };
    assert forall|i: int|
        0 <= i < s.len() implies (#[trigger] s[i] == BYTE_MINUS || s[i] == BYTE_DOT
        || spec_is_digit(s[i])) by {
        if i < off {
            assert(s[i] == BYTE_MINUS);
        } else if i < off + dd.len() {
            assert(s[i] == dd[i - off]);
            assert(spec_is_digit(dd[i - off]));
        } else if i == off + dd.len() {
            assert(s[i] == BYTE_DOT);
        } else {
            assert(spec_is_digit(s[i]));
        }
    }
}

} // verus!
