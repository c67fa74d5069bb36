//! The wire codec: command encoding and telemetry line parsing.
//!
//! Commands travel to the device as G-code-like lines (`G28\r\n`,
//! `G0 X<position>\r\n`, `M700 S<speed>\r\n`).  The device streams back
//! lines of whitespace-separated tokens; the recognized ones are the bare
//! acknowledgment `ok`, a position sample `X:<number>`, and a tensile force
//! sample `T:<integer>`.  Recognition is prefix-based and case-sensitive;
//! unrecognized tokens are ignored so that unknown telemetry fields keep
//! the parser forward-compatible.

use vstd::prelude::*;
use crate::error::DriverError;
use crate::fixed::Fixed;
use crate::fixed::{parse_fixed, parse_i32, format_fixed};
use crate::fixed::{spec_parse_fixed, spec_parse_i32, spec_format_fixed};
use crate::fixed::{lemma_format_fixed_bytes, lemma_format_parse_roundtrip};
use crate::fixed::BYTE_ZERO;

verus! {

/// ASCII space.
pub const BYTE_SPACE: u8 = 32;
/// ASCII horizontal tab.
pub const BYTE_TAB: u8 = 9;
/// ASCII carriage return.
pub const BYTE_CR: u8 = 13;
/// ASCII line feed: the line terminator of the protocol.
pub const BYTE_NL: u8 = 10;
/// ASCII `X`: tag of a position sample.
pub const BYTE_UPPER_X: u8 = 88;
/// ASCII `T`: tag of a tensile force sample.
pub const BYTE_UPPER_T: u8 = 84;
/// ASCII `G`.
pub const BYTE_UPPER_G: u8 = 71;
/// ASCII `M`.
pub const BYTE_UPPER_M: u8 = 77;
/// ASCII `S`.
pub const BYTE_UPPER_S: u8 = 83;
/// ASCII `:`.
pub const BYTE_COLON: u8 = 58;
/// ASCII `o`.
pub const BYTE_LOWER_O: u8 = 111;
/// ASCII `k`.
pub const BYTE_LOWER_K: u8 = 107;
/// ASCII `2`.
pub const BYTE_TWO: u8 = 50;
/// ASCII `7`.
pub const BYTE_SEVEN: u8 = 55;
/// ASCII `8`.
pub const BYTE_EIGHT: u8 = 56;

/// A recognized telemetry token, decoded into a structured sample.
#[derive(Clone, Copy, Debug, PartialEq, Eq, Structural)]
pub enum TelemetryEvent {
    /// The device acknowledged the most recently sent command.
    Acknowledge,
    /// A new position sample, in hundredths of a millimetre.
    Position(Fixed),
    /// A new tensile force sample, in device units.
    Tensile(i32),
}

/// Whether `b` separates tokens within a line.
pub open spec fn spec_is_ws(b: u8) -> bool {
    b == BYTE_SPACE || b == BYTE_TAB || b == BYTE_CR
}

/// The length of the maximal separator-free prefix of `s`.
pub open spec fn spec_token_len(s: Seq<u8>) -> nat
    decreases s.len(),
{
    if s.len() == 0 || spec_is_ws(s[0]) {
        0
    } else {
        1 + spec_token_len(s.drop_first())
    }
}

/// A token never runs past the end of its line.
proof fn lemma_token_len_le(s: Seq<u8>)
    ensures
        spec_token_len(s) <= s.len(),
    decreases s.len(),
{
    if s.len() == 0 || spec_is_ws(s[0]) {
    } else {
        lemma_token_len_le(s.drop_first());
    }
}

/// The whitespace-separated tokens of the line `s`, in order.
pub open spec fn spec_tokens(s: Seq<u8>) -> Seq<Seq<u8>>
    decreases s.len(),
    via spec_tokens_decreases
{
    if s.len() == 0 {
        seq![]
    } else if spec_is_ws(s[0]) {
        spec_tokens(s.drop_first())
    } else {
        seq![s.subrange(0, spec_token_len(s) as int)] + spec_tokens(
            s.subrange(spec_token_len(s) as int, s.len() as int),
        )
    }
}

#[via_fn]
proof fn spec_tokens_decreases(s: Seq<u8>) {
    if s.len() != 0 && !spec_is_ws(s[0]) {
        lemma_token_len_le(s);
        assert(spec_token_len(s) >= 1);
    }
}

/// The acknowledgment token `ok`.
pub open spec fn spec_ack_token() -> Seq<u8> {
    seq![BYTE_LOWER_O, BYTE_LOWER_K]
}

/// Whether the token `t` carries a recognized tag with a malformed numeric
/// payload.  Such a token is a parse error; it is skipped, never fatal.
pub open spec fn spec_token_malformed(t: Seq<u8>) -> bool {
    ||| (t.len() >= 2 && t[0] == BYTE_UPPER_X && t[1] == BYTE_COLON && spec_parse_fixed(
        t.subrange(2, t.len() as int),
    ) is None)
    ||| (t.len() >= 2 && t[0] == BYTE_UPPER_T && t[1] == BYTE_COLON && spec_parse_i32(
        t.subrange(2, t.len() as int),
    ) is None)
}

/// The event denoted by the token `t`: `ok` acknowledges, `X:` prefixes a
/// position, `T:` prefixes a tensile force.  `None` for unrecognized or
/// malformed tokens, which a line processor passes over.
pub open spec fn spec_token_event(t: Seq<u8>) -> Option<TelemetryEvent> {
    if t == spec_ack_token() {
        Some(TelemetryEvent::Acknowledge)
    } else if t.len() >= 2 && t[0] == BYTE_UPPER_X && t[1] == BYTE_COLON {
        match spec_parse_fixed(t.subrange(2, t.len() as int)) {
            Some(v) => Some(TelemetryEvent::Position(Fixed { hundredths: v as i64 })),
            None => None,
        }
    } else if t.len() >= 2 && t[0] == BYTE_UPPER_T && t[1] == BYTE_COLON {
        match spec_parse_i32(t.subrange(2, t.len() as int)) {
            Some(v) => Some(TelemetryEvent::Tensile(v as i32)),
            None => None,
        }
    } else {
        None
    }
}

/// The events denoted by a token list, in order, with unrecognized and
/// malformed tokens passed over.
pub open spec fn spec_events_of_tokens(toks: Seq<Seq<u8>>) -> Seq<TelemetryEvent>
    decreases toks.len(),
{
    if toks.len() == 0 {
        seq![]
    } else {
        spec_events_of_tokens(toks.drop_last()) + (match spec_token_event(toks.last()) {
            Some(e) => seq![e],
            None => seq![],
        })
    }
}

/// The events carried by one telemetry line.
pub open spec fn spec_line_events(line: Seq<u8>) -> Seq<TelemetryEvent> {
    spec_events_of_tokens(spec_tokens(line))
}

/// The bytes before the first separator are separator-free, and the byte
/// at the token's end, if any, is a separator.
proof fn lemma_token_len_props(s: Seq<u8>)
    ensures
        spec_token_len(s) <= s.len(),
        forall|j: int| 0 <= j < spec_token_len(s) ==> !spec_is_ws(#[trigger] s[j]),
        spec_token_len(s) < s.len() ==> spec_is_ws(s[spec_token_len(s) as int]),
    decreases s.len(),
{
    if s.len() == 0 || spec_is_ws(s[0]) {
    } else {
        lemma_token_len_props(s.drop_first());
        let k = spec_token_len(s);
        assert forall|j: int| 0 <= j < k implies !spec_is_ws(#[trigger] s[j]) by {
            if j >= 1 {
                assert(s.drop_first()[j - 1] == s[j]);
            }
        }
        if k < s.len() {
            assert(s.drop_first()[k - 1] == s[k as int]);
        }
    }
}

/// A trailing carriage return leaves a line's tokens unchanged: the
/// protocol terminates lines with CRLF, the splitter drops only the line
/// feed, and the carriage return is a separator.
pub proof fn lemma_tokens_trailing_cr(line: Seq<u8>)
    ensures
        spec_tokens(line.push(BYTE_CR)) == spec_tokens(line),
    decreases line.len(),
{
    let s = line.push(BYTE_CR);
    if line.len() == 0 {
        assert(s =~= seq![BYTE_CR]);
        assert(s.drop_first() =~= Seq::<u8>::empty());
        assert(spec_tokens(Seq::<u8>::empty()) =~= Seq::<Seq<u8>>::empty());
        assert(spec_is_ws(s[0]));
        assert(spec_tokens(s) == spec_tokens(s.drop_first()));
        assert(line =~= Seq::<u8>::empty());
        assert(spec_tokens(s) =~= spec_tokens(line));
    } else if spec_is_ws(line[0]) {
        assert(s[0] == line[0]);
        lemma_tokens_trailing_cr(line.drop_first());
        assert(s.drop_first() =~= line.drop_first().push(BYTE_CR));
    } else {
        assert(s[0] == line[0]);
        let k = spec_token_len(line) as int;
        lemma_token_len_props(line);
        assert forall|j: int| 0 <= j < k implies !spec_is_ws(#[trigger] s[j]) by {
            assert(s[j] == line[j]);
        }
        if k < line.len() {
            assert(s[k] == line[k]);
        } else {
            assert(s[k] == BYTE_CR);
        }
        lemma_token_len_run(s, k);
        assert(s.subrange(0, k) =~= line.subrange(0, k));
        lemma_tokens_trailing_cr(line.subrange(k, line.len() as int));
        assert(line.subrange(k, line.len() as int).push(BYTE_CR) =~= s.subrange(
            k,
            s.len() as int,
        ));
        assert(spec_tokens(s) == seq![s.subrange(0, k)] + spec_tokens(
            s.subrange(k, s.len() as int),
        ));
        assert(spec_tokens(line) == seq![line.subrange(0, k)] + spec_tokens(
            line.subrange(k, line.len() as int),
        ));
    }
}

/// `spec_token_len` is the distance to the first separator.
proof fn lemma_token_len_run(s: Seq<u8>, k: int)
    requires
        0 <= k <= s.len(),
        forall|j: int| 0 <= j < k ==> !spec_is_ws(#[trigger] s[j]),
        k < s.len() ==> spec_is_ws(s[k]),
    ensures
        spec_token_len(s) == k,
    decreases s.len(),
{
    if s.len() == 0 {
    } else if spec_is_ws(s[0]) {
        assert(k == 0);
    } else {
        assert(k >= 1);
        lemma_token_len_run(s.drop_first(), k - 1);
    }
}

/// A separator-free, non-empty sequence is one single token.
proof fn lemma_tokens_single(t: Seq<u8>)
    requires
        t.len() > 0,
        forall|j: int| 0 <= j < t.len() ==> !spec_is_ws(#[trigger] t[j]),
    ensures
        spec_tokens(t) == seq![t],
{
    lemma_token_len_run(t, t.len() as int);
    assert(t.subrange(0, t.len() as int) =~= t);
    assert(t.subrange(t.len() as int, t.len() as int) =~= Seq::<u8>::empty());
    assert(spec_tokens(Seq::<u8>::empty()) =~= Seq::<Seq<u8>>::empty());
    assert(spec_tokens(t) == seq![t.subrange(0, t.len() as int)] + spec_tokens(
        t.subrange(t.len() as int, t.len() as int),
    ));
    assert(spec_tokens(t) =~= seq![t]);
}

/// Prepending one separator-free token and a space to a line prepends that
/// token to the line's token list.
proof fn lemma_tokens_sep(t: Seq<u8>, rest: Seq<u8>)
    requires
        t.len() > 0,
        forall|j: int| 0 <= j < t.len() ==> !spec_is_ws(#[trigger] t[j]),
    ensures
        spec_tokens(t + seq![BYTE_SPACE] + rest) == seq![t] + spec_tokens(rest),
{
    let s = t + seq![BYTE_SPACE] + rest;
    assert forall|j: int| 0 <= j < t.len() implies !spec_is_ws(#[trigger] s[j]) by {
        assert(s[j] == t[j]);
    }
    assert(s[t.len() as int] == BYTE_SPACE);
    lemma_token_len_run(s, t.len() as int);
    assert(s.subrange(0, t.len() as int) =~= t);
    let tail = s.subrange(t.len() as int, s.len() as int);
    assert(tail =~= seq![BYTE_SPACE] + rest);
    assert(tail.drop_first() =~= rest);
    assert(spec_is_ws(tail[0]));
    assert(spec_tokens(tail) == spec_tokens(rest));
    assert(spec_tokens(s) == seq![s.subrange(0, t.len() as int)] + spec_tokens(tail));
    assert(spec_tokens(s) =~= seq![t] + spec_tokens(rest));
}

/// Whether `b` separates tokens.
fn is_ws_byte(b: u8) -> (r: bool)
    ensures
        r == spec_is_ws(b),
{
    b == BYTE_SPACE || b == BYTE_TAB || b == BYTE_CR
}

/// Copies the bytes of `tok` from index `from` on into a fresh vector.
fn tail_from(tok: &Vec<u8>, from: usize) -> (r: Vec<u8>)
    requires
        from <= tok@.len(),
    ensures
        r@ == tok@.subrange(from as int, tok@.len() as int),
{
    let mut out: Vec<u8> = Vec::new();
    let mut i: usize = from;
    while i < tok.len()
        invariant
            from <= i <= tok@.len(),
            out@ == tok@.subrange(from as int, i as int),
        decreases tok@.len() - i,
    {
        out.push(tok[i]);
        proof {
            assert(tok@.subrange(from as int, i + 1 as int) =~= tok@.subrange(
                from as int,
                i as int,
            ).push(tok@[i as int]));
        }
        i = i + 1;
    }
    proof {
        assert(tok@.subrange(from as int, i as int) =~= tok@.subrange(
            from as int,
            tok@.len() as int,
        ));
    }
    out
}

/// Splits the line into its whitespace-separated tokens.
#[verifier::loop_isolation(false)]
pub fn tokenize(line: &Vec<u8>) -> (toks: Vec<Vec<u8>>)
    ensures
        toks.deep_view() == spec_tokens(line@),
{
    let n = line.len();
    let mut toks: Vec<Vec<u8>> = Vec::new();
    let mut i: usize = 0;
    proof {
        assert(line@.subrange(0, n as int) =~= line@);
        assert(toks.deep_view() =~= Seq::<Seq<u8>>::empty());
    }
    while i < n
        invariant
            i <= n,
            spec_tokens(line@) == toks.deep_view() + spec_tokens(
                line@.subrange(i as int, n as int),
            ),
        decreases n - i,
    {
        if is_ws_byte(line[i]) {
            proof {
                assert(line@.subrange(i as int, n as int)[0] == line@[i as int]);
                assert(line@.subrange(i as int, n as int).drop_first() =~= line@.subrange(
                    i + 1 as int,
                    n as int,
                ));
            }
            i = i + 1;
        } else {
            let ghost prev = toks.deep_view();
            let start = i;
            let mut tok: Vec<u8> = Vec::new();
            while i < n && !is_ws_byte(line[i])
                invariant
                    start <= i <= n,
                    tok@ == line@.subrange(start as int, i as int),
                    forall|j: int| start <= j < i ==> !spec_is_ws(#[trigger] line@[j]),
                decreases n - i,
            {
                tok.push(line[i]);
                proof {
                    assert(line@.subrange(start as int, i + 1 as int) =~= line@.subrange(
                        start as int,
                        i as int,
                    ).push(line@[i as int]));
                }
                i = i + 1;
            }
            proof {
                let suf = line@.subrange(start as int, n as int);
                assert forall|j: int| 0 <= j < i - start implies !spec_is_ws(
                    #[trigger] suf[j],
                ) by {
                    assert(suf[j] == line@[start + j]);
                }
                if i < n {
                    assert(suf[i - start] == line@[i as int]);
                }
                lemma_token_len_run(suf, i - start);
                assert(suf.subrange(0, i - start) =~= tok@);
                assert(suf.subrange(i - start, suf.len() as int) =~= line@.subrange(
                    i as int,
                    n as int,
                ));
            }
            toks.push(tok);
            proof {
                assert(toks.deep_view() =~~= prev.push(tok@));
                assert(prev + (seq![tok@] + spec_tokens(line@.subrange(i as int, n as int)))
                    =~= prev.push(tok@) + spec_tokens(line@.subrange(i as int, n as int)));
            }
        }
    }
    proof {
        assert(line@.subrange(n as int, n as int) =~= Seq::<u8>::empty());
        assert(toks.deep_view() =~= toks.deep_view() + spec_tokens(Seq::<u8>::empty()));
    }
    toks
}

/// Classifies one token.  `Ok(Some(event))` for a recognized token,
/// `Ok(None)` for an unrecognized one (ignored for forward compatibility),
/// and `Err(ParseError)` exactly when a recognized tag carries a malformed
/// numeric payload.
pub fn classify_token(tok: &Vec<u8>) -> (r: Result<Option<TelemetryEvent>, DriverError>)
    ensures
        match r {
            Ok(e) => e == spec_token_event(tok@) && !spec_token_malformed(tok@),
            Err(err) => spec_token_malformed(tok@) && err == DriverError::ParseError,
        },
{
    proof {
        assert(spec_ack_token().len() == 2);
        assert(spec_ack_token()[0] == BYTE_LOWER_O);
        assert(spec_ack_token()[1] == BYTE_LOWER_K);
    }
    let n = tok.len();
    if n == 2 && tok[0] == BYTE_LOWER_O && tok[1] == BYTE_LOWER_K {
        proof {
            assert(tok@ =~= spec_ack_token());
        }
        return Ok(Some(TelemetryEvent::Acknowledge));
    }
    if n >= 2 && tok[0] == BYTE_UPPER_X && tok[1] == BYTE_COLON {
        let rest = tail_from(tok, 2);
        match parse_fixed(&rest) {
            Ok(f) => {
                return Ok(Some(TelemetryEvent::Position(f)));
            },
            Err(e) => {
                return Err(e);
            },
        }
    }
    if n >= 2 && tok[0] == BYTE_UPPER_T && tok[1] == BYTE_COLON {
        let rest = tail_from(tok, 2);
        match parse_i32(&rest) {
            Ok(t) => {
                return Ok(Some(TelemetryEvent::Tensile(t)));
            },
            Err(e) => {
                return Err(e);
            },
        }
    }
    Ok(None)
}

/// Decodes one telemetry line into its recognized events, in order.
/// Unrecognized tokens and tokens with malformed payloads are skipped, so
/// a garbled line never aborts processing.
#[verifier::loop_isolation(false)]
pub fn parse_line(line: &Vec<u8>) -> (events: Vec<TelemetryEvent>)
    ensures
        events@ == spec_line_events(line@),
{
    let toks = tokenize(line);
    let mut events: Vec<TelemetryEvent> = Vec::new();
    let mut i: usize = 0;
    proof {
        assert(toks.deep_view().subrange(0, 0) =~= Seq::<Seq<u8>>::empty());
    }
    while i < toks.len()
        invariant
            i <= toks@.len(),
            toks.deep_view().len() == toks@.len(),
            events@ == spec_events_of_tokens(toks.deep_view().subrange(0, i as int)),
        decreases toks@.len() - i,
    {
        let ghost pre = toks.deep_view().subrange(0, i as int);
        let ghost post = toks.deep_view().subrange(0, i + 1 as int);
        proof {
            assert(post.drop_last() =~= pre);
            assert(post.last() == toks.deep_view()[i as int]);
            assert(toks.deep_view()[i as int] == toks@[i as int].deep_view());
            assert(toks@[i as int].deep_view() =~= toks@[i as int]@);
        }
        match classify_token(&toks[i]) {
            Ok(o) => {
                match o {
                    Some(e) => {
                        events.push(e);
                    },
                    None => {},
                }
            },
            Err(_) => {},
        }
        proof {
            assert(events@ =~= spec_events_of_tokens(post));
        }
        i = i + 1;
    }
    proof {
        assert(toks.deep_view().subrange(0, i as int) =~= toks.deep_view());
    }
    events
}

/// The encoded homing command, `G28\r\n`.
pub open spec fn spec_encode_home() -> Seq<u8> {
    seq![BYTE_UPPER_G, BYTE_TWO, BYTE_EIGHT, BYTE_CR, BYTE_NL]
}

/// The encoded absolute-move command, `G0 X<target>\r\n`.
pub open spec fn spec_encode_move(target: int) -> Seq<u8> {
    seq![BYTE_UPPER_G, BYTE_ZERO, BYTE_SPACE, BYTE_UPPER_X] + spec_format_fixed(target) + seq![
        BYTE_CR,
        BYTE_NL,
    ]
}

/// The encoded test-start command, `M700 S<speed>\r\n`.
pub open spec fn spec_encode_start_test(speed: int) -> Seq<u8> {
    seq![BYTE_UPPER_M, BYTE_SEVEN, BYTE_ZERO, BYTE_ZERO, BYTE_SPACE, BYTE_UPPER_S]
        + spec_format_fixed(speed) + seq![BYTE_CR, BYTE_NL]
}

/// Builds the homing command line.
pub fn encode_home() -> (r: Vec<u8>)
    ensures
        r@ == spec_encode_home(),
{
    let mut out: Vec<u8> = Vec::new();
    out.push(BYTE_UPPER_G);
    out.push(BYTE_TWO);
    out.push(BYTE_EIGHT);
    out.push(BYTE_CR);
    out.push(BYTE_NL);
    proof {
        assert(out@ =~= spec_encode_home());
    }
    out
}

/// Builds the absolute-move command line for the given target position.
pub fn encode_move_absolute(target: Fixed) -> (r: Vec<u8>)
    ensures
        r@ == spec_encode_move(target.as_int()),
{
    let mut out: Vec<u8> = Vec::new();
    out.push(BYTE_UPPER_G);
    out.push(BYTE_ZERO);
    out.push(BYTE_SPACE);
    out.push(BYTE_UPPER_X);
    let num = format_fixed(target);
    out.extend_from_slice(num.as_slice());
    out.push(BYTE_CR);
    out.push(BYTE_NL);
    proof {
        assert(out@ =~= spec_encode_move(target.as_int()));
    }
    out
}

/// Builds the test-start command line for the given speed.
pub fn encode_start_test(speed: Fixed) -> (r: Vec<u8>)
    ensures
        r@ == spec_encode_start_test(speed.as_int()),
{
    let mut out: Vec<u8> = Vec::new();
    out.push(BYTE_UPPER_M);
    out.push(BYTE_SEVEN);
    out.push(BYTE_ZERO);
    out.push(BYTE_ZERO);
    out.push(BYTE_SPACE);
    out.push(BYTE_UPPER_S);
    let num = format_fixed(speed);
    out.extend_from_slice(num.as_slice());
    out.push(BYTE_CR);
    out.push(BYTE_NL);
    proof {
        assert(out@ =~= spec_encode_start_test(speed.as_int()));
    }
    out
}

/// The round trip between the encoder and the parser: a telemetry line
/// `X:<p> T:0` whose position payload is the encoder's own rendering of
/// `p` — as used in the move command `G0 X<p>` — decodes to exactly the
/// position `p` followed by the tensile force zero.
#[verifier::rlimit(80)]
pub proof fn lemma_telemetry_line_roundtrip(v: i64)
    ensures
        spec_line_events(
            seq![BYTE_UPPER_X, BYTE_COLON] + spec_format_fixed(v as int) + seq![
                BYTE_SPACE,
                BYTE_UPPER_T,
                BYTE_COLON,
                BYTE_ZERO,
            ],
        ) == seq![
            TelemetryEvent::Position(Fixed { hundredths: v }),
            TelemetryEvent::Tensile(0),
        ],
{
    let num = spec_format_fixed(v as int);
    let t1 = seq![BYTE_UPPER_X, BYTE_COLON] + num;
    let t2 = seq![BYTE_UPPER_T, BYTE_COLON, BYTE_ZERO];
    let line = seq![BYTE_UPPER_X, BYTE_COLON] + num + seq![
        BYTE_SPACE,
        BYTE_UPPER_T,
        BYTE_COLON,
        BYTE_ZERO,
    ];
    assert(line =~= t1 + seq![BYTE_SPACE] + t2);
    lemma_format_fixed_bytes(v as int);
    assert forall|j: int| 0 <= j < t1.len() implies !spec_is_ws(#[trigger] t1[j]) by {
        if j >= 2 {
            assert(t1[j] == num[j - 2]);
        }
    }
    lemma_tokens_sep(t1, t2);
    assert forall|j: int| 0 <= j < t2.len() implies !spec_is_ws(#[trigger] t2[j]) by {}
    lemma_tokens_single(t2);
    let toks = spec_tokens(line);
    assert(toks =~= seq![t1, t2]);
    // The first token decodes to the position `v`.
    lemma_format_parse_roundtrip(v);
    assert(t1.subrange(2, t1.len() as int) =~= num);
    assert(t1 != spec_ack_token());
    assert(spec_token_event(t1) == Some(TelemetryEvent::Position(Fixed { hundredths: v })));
    // The second token decodes to the tensile force zero.
    assert(t2 != spec_ack_token());
    let d0 = t2.subrange(2, 3);
    assert(d0 =~= seq![BYTE_ZERO]);
    assert(d0.len() == 1);
    assert(d0.last() == BYTE_ZERO);
    assert(d0[0] == BYTE_ZERO);
    assert(d0.drop_last() =~= Seq::<u8>::empty());
    assert(crate::fixed::spec_dec_val(Seq::<u8>::empty()) == 0);
    assert(crate::fixed::spec_digit_val(BYTE_ZERO) == 0);
    assert(crate::fixed::spec_dec_val(d0) == 0);
    assert(crate::fixed::spec_all_digits(d0));
    assert(spec_parse_i32(d0) == Some(0int));
    assert(spec_token_event(t2) == Some(TelemetryEvent::Tensile(0)));
    // Fold the two events together.
    assert(toks.drop_last() =~= seq![t1]);
    assert(toks.last() == t2);
    assert(seq![t1].drop_last() =~= Seq::<Seq<u8>>::empty());
    assert(seq![t1].last() == t1);
    assert(spec_events_of_tokens(Seq::<Seq<u8>>::empty()) == Seq::<TelemetryEvent>::empty());
    assert(spec_events_of_tokens(seq![t1]) =~= seq![
        TelemetryEvent::Position(Fixed { hundredths: v }),
    ]);
    assert(spec_events_of_tokens(toks) =~= seq![
        TelemetryEvent::Position(Fixed { hundredths: v }),
        TelemetryEvent::Tensile(0),
    ]);
}

} // verus!
