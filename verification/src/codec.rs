//! The event codec: renders an envelope as a JSON text frame and parses
//! such frames back. The grammar is fixed:
//!
//! `{"timestamp":<u64>,"data":{"Hello":{"payload":"<s>"}}}`
//! `{"timestamp":<u64>,"data":{"Authenticate":{"username":"<s>","password":"<s>"}}}`
//! `{"timestamp":<u64>,"data":{"Print":"<s>"}}`
//!
//! where `<s>` is a string with `"` and `\` escaped by a backslash.
//! `lemma_decode_inverts_encode` proves the round trip: parsing an
//! encoded envelope yields the envelope back.

use vstd::prelude::*;
use vstd::string::StrSliceExecFns;
use vstd::string::StringExecFns;
use crate::events::{
    AuthenticateEvent, EnvelopeView, EventPayload, EventView, Frame, FrameView, HelloEvent,
    XeonEvent,
};

verus! {

/// Relies on `alloc::string::String::push`: appends the given character
/// to the end of the string.
pub assume_specification[ String::push ](s: &mut String, ch: char)
    ensures
        final (s)@ == old(s)@.push(ch),
;

// ------------------------------------------------------------------
// Decimal digits
// ------------------------------------------------------------------

pub open spec fn is_digit(c: char) -> bool {
    c == '0' || c == '1' || c == '2' || c == '3' || c == '4' || c == '5' || c == '6' || c == '7'
        || c == '8' || c == '9'
}

pub open spec fn digit_char(d: int) -> char {
    if d == 0 {
        '0'
    } else if d == 1 {
        '1'
    } else if d == 2 {
        '2'
    } else if d == 3 {
        '3'
    } else if d == 4 {
        '4'
    } else if d == 5 {
        '5'
    } else if d == 6 {
        '6'
    } else if d == 7 {
        '7'
    } else if d == 8 {
        '8'
    } else {
        '9'
    }
}

pub open spec fn digit_val(c: char) -> int {
    if c == '0' {
        0
    } else if c == '1' {
        1
    } else if c == '2' {
        2
    } else if c == '3' {
        3
    } else if c == '4' {
        4
    } else if c == '5' {
        5
    } else if c == '6' {
        6
    } else if c == '7' {
        7
    } else if c == '8' {
        8
    } else {
        9
    }
}

/// The decimal rendering of `n`, most significant digit first.
pub open spec fn dec_digits(n: nat) -> Seq<char>
    decreases n,
{
    if n < 10 {
        seq![digit_char(n as int)]
    } else {
        dec_digits(n / 10).push(digit_char((n % 10) as int))
    }
}

pub open spec fn pow10(k: nat) -> nat
    decreases k,
{
    if k == 0 {
        1
    } else {
        10 * pow10((k - 1) as nat)
    }
}

proof fn lemma_digit_char_val(d: int)
    requires
        0 <= d < 10,
    ensures
        is_digit(digit_char(d)),
        digit_val(digit_char(d)) == d,
{
}

proof fn lemma_pow10_pos(k: nat)
    ensures
        pow10(k) >= 1,
    decreases k,
{
    if k > 0 {
        lemma_pow10_pos((k - 1) as nat);
    }
}

proof fn lemma_dec_digits_first(n: nat)
    ensures
        dec_digits(n).len() >= 1,
        is_digit(dec_digits(n)[0]),
    decreases n,
{
    if n < 10 {
        lemma_digit_char_val(n as int);
    } else {
        lemma_dec_digits_first(n / 10);
    }
}

// ------------------------------------------------------------------
// String escaping
// ------------------------------------------------------------------

pub open spec fn esc_char(c: char) -> Seq<char> {
    if c == '"' || c == '\\' {
        seq!['\\', c]
    } else {
        seq![c]
    }
}

/// The escaped form of a string body: `"` and `\` get a leading backslash.
pub open spec fn esc(s: Seq<char>) -> Seq<char>
    decreases s.len(),
{
    if s.len() == 0 {
        Seq::empty()
    } else {
        esc_char(s[0]) + esc(s.drop_first())
    }
}

// ------------------------------------------------------------------
// The grammar, as spec-level parsers over `Seq<char>`.
// Each parser takes the whole frame and a position, and returns the
// parsed value with the position just past it, or `None`.
// ------------------------------------------------------------------

pub open spec fn parse_lit(s: Seq<char>, i: int, lit: Seq<char>) -> Option<int> {
    if 0 <= i && i + lit.len() <= s.len() && s.subrange(i, i + lit.len() as int) == lit {
        Some(i + lit.len() as int)
    } else {
        None
    }
}

pub open spec fn parse_u64_rec(s: Seq<char>, i: int, acc: u64) -> Option<(u64, int)>
    decreases s.len() - i,
{
    if i < 0 || i >= s.len() || !is_digit(s[i]) {
        Some((acc, i))
    } else if acc * 10 + digit_val(s[i]) <= u64::MAX {
        parse_u64_rec(s, i + 1, (acc * 10 + digit_val(s[i])) as u64)
    } else {
        None
    }
}

/// A decimal number: at least one digit, greedy, rejected on overflow.
pub open spec fn parse_u64(s: Seq<char>, i: int) -> Option<(u64, int)> {
    if 0 <= i < s.len() && is_digit(s[i]) {
        parse_u64_rec(s, i, 0)
    } else {
        None
    }
}

/// A string body: everything up to an unescaped closing quote, with the
/// quote consumed. Only `\"` and `\\` are valid escapes.
pub open spec fn parse_str_rec(s: Seq<char>, i: int, acc: Seq<char>) -> Option<(Seq<char>, int)>
    decreases s.len() - i,
{
    if i < 0 || i >= s.len() {
        None
    } else if s[i] == '"' {
        Some((acc, i + 1))
    } else if s[i] == '\\' {
        if i + 1 < s.len() && (s[i + 1] == '"' || s[i + 1] == '\\') {
            parse_str_rec(s, i + 2, acc.push(s[i + 1]))
        } else {
            None
        }
    } else {
        parse_str_rec(s, i + 1, acc.push(s[i]))
    }
}

pub open spec fn lit_env_pre() -> Seq<char> {
    "{\"timestamp\":"@
}

pub open spec fn lit_data_mid() -> Seq<char> {
    ",\"data\":"@
}

pub open spec fn lit_hello_pre() -> Seq<char> {
    "{\"Hello\":{\"payload\":\""@
}

pub open spec fn lit_auth_pre() -> Seq<char> {
    "{\"Authenticate\":{\"username\":\""@
}

pub open spec fn lit_pass_mid() -> Seq<char> {
    ",\"password\":\""@
}

pub open spec fn lit_print_pre() -> Seq<char> {
    "{\"Print\":\""@
}

pub open spec fn lit_obj_post() -> Seq<char> {
    "}}"@
}

pub open spec fn lit_env_post() -> Seq<char> {
    "}"@
}

/// The exact text-frame rendering of an event payload.
pub open spec fn spec_encode_event(e: EventView) -> Seq<char> {
    match e {
        EventView::Hello { payload } => lit_hello_pre() + esc(payload) + seq!['"']
            + lit_obj_post(),
        EventView::Authenticate { username, password } => lit_auth_pre() + esc(username)
            + seq!['"'] + lit_pass_mid() + esc(password) + seq!['"'] + lit_obj_post(),
        EventView::Print { text } => lit_print_pre() + esc(text) + seq!['"'] + lit_env_post(),
    }
}

/// The exact text-frame rendering of an envelope.
pub open spec fn spec_encode(v: EnvelopeView) -> Seq<char> {
    lit_env_pre() + dec_digits(v.timestamp as nat) + lit_data_mid() + spec_encode_event(v.data)
        + lit_env_post()
}

pub open spec fn parse_hello(s: Seq<char>, j: int) -> Option<(EventView, int)> {
    match parse_str_rec(s, j, Seq::empty()) {
        Some((payload, k)) => match parse_lit(s, k, lit_obj_post()) {
            Some(m) => Some((EventView::Hello { payload }, m)),
            None => None,
        },
        None => None,
    }
}

pub open spec fn parse_auth(s: Seq<char>, j: int) -> Option<(EventView, int)> {
    match parse_str_rec(s, j, Seq::empty()) {
        Some((username, k)) => match parse_lit(s, k, lit_pass_mid()) {
            Some(m) => match parse_str_rec(s, m, Seq::empty()) {
                Some((password, p)) => match parse_lit(s, p, lit_obj_post()) {
                    Some(q) => Some((EventView::Authenticate { username, password }, q)),
                    None => None,
                },
                None => None,
            },
            None => None,
        },
        None => None,
    }
}

pub open spec fn parse_print(s: Seq<char>, j: int) -> Option<(EventView, int)> {
    match parse_str_rec(s, j, Seq::empty()) {
        Some((text, k)) => match parse_lit(s, k, lit_env_post()) {
            Some(m) => Some((EventView::Print { text }, m)),
            None => None,
        },
        None => None,
    }
}

pub open spec fn parse_event(s: Seq<char>, i: int) -> Option<(EventView, int)> {
    match parse_lit(s, i, lit_hello_pre()) {
        Some(j) => parse_hello(s, j),
        None => match parse_lit(s, i, lit_auth_pre()) {
            Some(j) => parse_auth(s, j),
            None => match parse_lit(s, i, lit_print_pre()) {
                Some(j) => parse_print(s, j),
                None => None,
            },
        },
    }
}

/// The whole frame: an envelope with nothing after it.
pub open spec fn parse_envelope(s: Seq<char>) -> Option<EnvelopeView> {
    match parse_lit(s, 0, lit_env_pre()) {
        Some(i) => match parse_u64(s, i) {
            Some((timestamp, j)) => match parse_lit(s, j, lit_data_mid()) {
                Some(k) => match parse_event(s, k) {
                    Some((data, m)) => match parse_lit(s, m, lit_env_post()) {
                        Some(e) => if e == s.len() {
                            Some(EnvelopeView { timestamp, data })
                        } else {
                            None
                        },
                        None => None,
                    },
                    None => None,
                },
                None => None,
            },
            None => None,
        },
        None => None,
    }
}

// ------------------------------------------------------------------
// Encoder
// ------------------------------------------------------------------

fn digit_to_char(d: u64) -> (c: char)
    requires
        d < 10,
    ensures
        c == digit_char(d as int),
{
    if d == 0 {
        '0'
    } else if d == 1 {
        '1'
    } else if d == 2 {
        '2'
    } else if d == 3 {
        '3'
    } else if d == 4 {
        '4'
    } else if d == 5 {
        '5'
    } else if d == 6 {
        '6'
    } else if d == 7 {
        '7'
    } else if d == 8 {
        '8'
    } else {
        '9'
    }
}

pub(crate) fn push_dec_u64(out: &mut String, n: u64)
    ensures
        final (out)@ == old(out)@ + dec_digits(n as nat),
    decreases n,
{
    if n < 10 {
        out.push(digit_to_char(n));
        assert(final (out)@ =~= old(out)@ + dec_digits(n as nat));
    } else {
        push_dec_u64(out, n / 10);
        out.push(digit_to_char(n % 10));
        assert(final (out)@ =~= old(out)@ + dec_digits(n as nat));
    }
}

/// The decimal rendering of a session identifier, for display names.
pub fn u128_to_string(n: u128) -> (r: String)
    ensures
        r@ == dec_digits(n as nat),
{
    let mut out = String::new();
    push_dec_u128(&mut out, n);
    assert(out@ =~= dec_digits(n as nat));
    out
}

fn push_dec_u128(out: &mut String, n: u128)
    ensures
        final (out)@ == old(out)@ + dec_digits(n as nat),
    decreases n,
{
    if n < 10 {
        out.push(digit_to_char((n % 10) as u64));
        assert(final (out)@ =~= old(out)@ + dec_digits(n as nat));
    } else {
        push_dec_u128(out, n / 10);
        out.push(digit_to_char((n % 10) as u64));
        assert(final (out)@ =~= old(out)@ + dec_digits(n as nat));
    }
}

fn push_escaped(out: &mut String, s: &str)
    ensures
        final (out)@ == old(out)@ + esc(s@),
{
    let n = s.unicode_len();
    let mut j: usize = 0;
    assert(s@.skip(0) =~= s@);
    while j < n
        invariant
            n == s@.len(),
            j <= n,
            out@ + esc(s@.skip(j as int)) == old(out)@ + esc(s@),
        decreases n - j,
    {
        let c = s.get_char(j);
        let ghost rest = s@.skip(j as int);
        assert(rest[0] == c && rest.drop_first() =~= s@.skip(j + 1));
        if c == '"' || c == '\\' {
            out.push('\\');
            out.push(c);
        } else {
            out.push(c);
        }
        proof {
            assert(out@ + esc(s@.skip(j + 1)) =~= old(out)@ + esc(s@));
        }
        j = j + 1;
    }
    assert(esc(s@.skip(n as int)) =~= Seq::<char>::empty());
    assert(final (out)@ =~= old(out)@ + esc(s@));
}

/// Renders an envelope as its text frame. Total: every representable
/// envelope has an encoding.
pub fn encode(e: &EventPayload) -> (r: String)
    ensures
        r@ == spec_encode(e@),
{
    let mut out = String::new();
    out.append("{\"timestamp\":");
    push_dec_u64(&mut out, e.timestamp);
    out.append(",\"data\":");
    match &e.data {
        XeonEvent::Hello(h) => {
            out.append("{\"Hello\":{\"payload\":\"");
            push_escaped(&mut out, h.payload.as_str());
            out.push('"');
            out.append("}}");
        },
        XeonEvent::Authenticate(a) => {
            out.append("{\"Authenticate\":{\"username\":\"");
            push_escaped(&mut out, a.username.as_str());
            out.push('"');
            out.append(",\"password\":\"");
            push_escaped(&mut out, a.password.as_str());
            out.push('"');
            out.append("}}");
        },
        XeonEvent::Print(t) => {
            out.append("{\"Print\":\"");
            push_escaped(&mut out, t.as_str());
            out.push('"');
            out.append("}");
        },
    }
    out.append("}");
    proof {
        assert(seq!['"'] =~= Seq::empty().push('"'));
        assert(out@ =~= spec_encode(e@));
    }
    out
}

// ------------------------------------------------------------------
// Decoder
// ------------------------------------------------------------------

/// Why a frame is not an envelope: it is no text frame at all, or its
/// text does not fit the grammar.
#[derive(Debug, PartialEq, Eq, Structural, Clone, Copy)]
pub enum DecodeError {
    NotText,
    Malformed,
}

fn is_digit_char(c: char) -> (b: bool)
    ensures
        b == is_digit(c),
{
    c == '0' || c == '1' || c == '2' || c == '3' || c == '4' || c == '5' || c == '6' || c == '7'
        || c == '8' || c == '9'
}

fn digit_value(c: char) -> (d: u64)
    requires
        is_digit(c),
    ensures
        d as int == digit_val(c),
        d < 10,
{
    if c == '0' {
        0
    } else if c == '1' {
        1
    } else if c == '2' {
        2
    } else if c == '3' {
        3
    } else if c == '4' {
        4
    } else if c == '5' {
        5
    } else if c == '6' {
        6
    } else if c == '7' {
        7
    } else if c == '8' {
        8
    } else {
        9
    }
}

fn match_lit(s: &str, i: usize, lit: &str) -> (r: Option<usize>)
    ensures
        match r {
            Some(j) => parse_lit(s@, i as int, lit@) == Some(j as int) && j <= s@.len(),
            None => parse_lit(s@, i as int, lit@) is None,
        },
{
    let sl = s.unicode_len();
    let ll = lit.unicode_len();
    if i > sl || ll > sl - i {
        return None;
    }
    let mut k: usize = 0;
    while k < ll
        invariant
            sl == s@.len(),
            ll == lit@.len(),
            i + ll <= sl,
            k <= ll,
            forall|t: int| 0 <= t < k ==> s@[i + t] == lit@[t],
        decreases ll - k,
    {
        if s.get_char(i + k) != lit.get_char(k) {
            proof {
                assert(s@.subrange(i as int, i + ll) != lit@) by {
                    assert(s@.subrange(i as int, i + ll)[k as int] == s@[i + k]);
                }
            }
            return None;
        }
        k = k + 1;
    }
    proof {
        assert(s@.subrange(i as int, i + ll) =~= lit@);
    }
    Some(i + ll)
}

fn parse_number(s: &str, i: usize) -> (r: Option<(u64, usize)>)
    ensures
        match r {
            Some((v, j)) => parse_u64(s@, i as int) == Some((v, j as int)) && j <= s@.len(),
            None => parse_u64(s@, i as int) is None,
        },
{
    let n = s.unicode_len();
    if i >= n {
        return None;
    }
    let c0 = s.get_char(i);
    if !is_digit_char(c0) {
        return None;
    }
    let mut j: usize = i;
    let mut acc: u64 = 0;
    while j < n
        invariant
            n == s@.len(),
            i <= j <= n,
            i < n,
            is_digit(s@[i as int]),
            parse_u64_rec(s@, i as int, 0) == parse_u64_rec(s@, j as int, acc),
        decreases n - j,
    {
        let c = s.get_char(j);
        if !is_digit_char(c) {
            proof {
                assert(parse_u64_rec(s@, j as int, acc) == Some((acc, j as int)));
                assert(parse_u64(s@, i as int) == parse_u64_rec(s@, i as int, 0));
            }
            return Some((acc, j));
        }
        let d = digit_value(c);
        match acc.checked_mul(10) {
            Some(x) => match x.checked_add(d) {
                Some(y) => {
                    acc = y;
                    j = j + 1;
                },
                None => {
                    return None;
                },
            },
            None => {
                return None;
            },
        }
    }
    Some((acc, j))
}

fn parse_string(s: &str, i: usize) -> (r: Option<(String, usize)>)
    ensures
        match r {
            Some((v, j)) => parse_str_rec(s@, i as int, Seq::empty()) == Some((v@, j as int)) && j
                <= s@.len(),
            None => parse_str_rec(s@, i as int, Seq::empty()) is None,
        },
{
    let n = s.unicode_len();
    let mut j: usize = i;
    let mut out = String::new();
    while j < n
        invariant
            n == s@.len(),
            i <= j,
            j <= n || (i > n && j == i),
            parse_str_rec(s@, i as int, Seq::empty()) == parse_str_rec(s@, j as int, out@),
        decreases n - j,
    {
        let c = s.get_char(j);
        if c == '"' {
            return Some((out, j + 1));
        } else if c == '\\' {
            if j + 1 < n {
                let c2 = s.get_char(j + 1);
                if c2 == '"' || c2 == '\\' {
                    out.push(c2);
                    j = j + 2;
                } else {
                    return None;
                }
            } else {
                return None;
            }
        } else {
            out.push(c);
            j = j + 1;
        }
    }
    None
}

fn parse_event_exec(s: &str, i: usize) -> (r: Option<(XeonEvent, usize)>)
    ensures
        match r {
            Some((ev, m)) => parse_event(s@, i as int) == Some((ev@, m as int)) && m <= s@.len(),
            None => parse_event(s@, i as int) is None,
        },
{
    if let Some(j) = match_lit(s, i, "{\"Hello\":{\"payload\":\"") {
        let (payload, k) = match parse_string(s, j) {
            Some(p) => p,
            None => {
                return None;
            },
        };
        let m = match match_lit(s, k, "}}") {
            Some(m) => m,
            None => {
                return None;
            },
        };
        Some((XeonEvent::Hello(HelloEvent { payload }), m))
    } else if let Some(j) = match_lit(s, i, "{\"Authenticate\":{\"username\":\"") {
        let (username, k) = match parse_string(s, j) {
            Some(p) => p,
            None => {
                return None;
            },
        };
        let m = match match_lit(s, k, ",\"password\":\"") {
            Some(m) => m,
            None => {
                return None;
            },
        };
        let (password, p) = match parse_string(s, m) {
            Some(p) => p,
            None => {
                return None;
            },
        };
        let q = match match_lit(s, p, "}}") {
            Some(q) => q,
            None => {
                return None;
            },
        };
        Some((XeonEvent::Authenticate(AuthenticateEvent { username, password }), q))
    } else if let Some(j) = match_lit(s, i, "{\"Print\":\"") {
        let (text, k) = match parse_string(s, j) {
            Some(p) => p,
            None => {
                return None;
            },
        };
        let m = match match_lit(s, k, "}") {
            Some(m) => m,
            None => {
                return None;
            },
        };
        Some((XeonEvent::Print(text), m))
    } else {
        None
    }
}

/// Parses a text frame back into an envelope. Succeeds exactly on the
/// frames that fit the grammar, and returns the envelope they denote;
/// anything else is `Malformed`.
pub fn decode(s: &str) -> (r: Result<EventPayload, DecodeError>)
    ensures
        match r {
            Ok(e) => parse_envelope(s@) == Some(e@),
            Err(er) => parse_envelope(s@) is None && er == DecodeError::Malformed,
        },
{
    let i = match match_lit(s, 0, "{\"timestamp\":") {
        Some(i) => i,
        None => {
            return Err(DecodeError::Malformed);
        },
    };
    let (timestamp, j) = match parse_number(s, i) {
        Some(p) => p,
        None => {
            return Err(DecodeError::Malformed);
        },
    };
    let k = match match_lit(s, j, ",\"data\":") {
        Some(k) => k,
        None => {
            return Err(DecodeError::Malformed);
        },
    };
    let (data, m) = match parse_event_exec(s, k) {
        Some(p) => p,
        None => {
            return Err(DecodeError::Malformed);
        },
    };
    let e = match match_lit(s, m, "}") {
        Some(e) => e,
        None => {
            return Err(DecodeError::Malformed);
        },
    };
    if e == s.unicode_len() {
        Ok(EventPayload { timestamp, data })
    } else {
        Err(DecodeError::Malformed)
    }
}

/// Parses a transport frame back into an envelope. Only text frames are
/// candidates: binary and close frames are `NotText`.
pub fn decode_frame(frame: &Frame) -> (r: Result<EventPayload, DecodeError>)
    ensures
        match frame@ {
            FrameView::Text(t) => match r {
                Ok(e) => parse_envelope(t) == Some(e@),
                Err(er) => parse_envelope(t) is None && er == DecodeError::Malformed,
            },
            _ => r == Err::<EventPayload, DecodeError>(DecodeError::NotText),
        },
{
    match frame {
        Frame::Text(s) => decode(s.as_str()),
        Frame::Binary(_) => Err(DecodeError::NotText),
        Frame::Close => Err(DecodeError::NotText),
    }
}

// ------------------------------------------------------------------
// The round trip: parsing an encoded envelope yields the envelope.
// ------------------------------------------------------------------

/// Inside a region of `s` known to hold `whole`, a slice of the region
/// is the matching slice of `whole`.
proof fn lemma_subrange_within(s: Seq<char>, i: int, whole: Seq<char>, a: int, b: int)
    requires
        0 <= i,
        i + whole.len() <= s.len(),
        s.subrange(i, i + whole.len() as int) == whole,
        0 <= a <= b <= whole.len(),
    ensures
        s.subrange(i + a, i + b) == whole.subrange(a, b),
{
    assert forall|k: int| 0 <= k < b - a implies s.subrange(i + a, i + b)[k] == whole.subrange(
        a,
        b,
    )[k] by {
        assert(whole[a + k] == s.subrange(i, i + whole.len() as int)[a + k]);
    }
    assert(s.subrange(i + a, i + b) =~= whole.subrange(a, b));
}

proof fn lemma_parse_u64_rec_block(s: Seq<char>, i: int, acc: u64, n: u64)
    requires
        0 <= i,
        i + dec_digits(n as nat).len() <= s.len(),
        s.subrange(i, i + dec_digits(n as nat).len() as int) == dec_digits(n as nat),
        acc * pow10(dec_digits(n as nat).len()) + n <= u64::MAX,
    ensures
        parse_u64_rec(s, i, acc) == parse_u64_rec(
            s,
            i + dec_digits(n as nat).len() as int,
            (acc * pow10(dec_digits(n as nat).len()) + n) as u64,
        ),
    decreases n,
{
    let ds = dec_digits(n as nat);
    let l = ds.len() as int;
    assert(pow10(0) == 1);
    if n < 10 {
        lemma_digit_char_val(n as int);
        assert(pow10(1) == 10);
        assert(s[i] == s.subrange(i, i + 1)[0]);
        assert(s[i] == digit_char(n as int));
        assert(digit_val(s[i]) == n);
        assert(parse_u64_rec(s, i, acc) == parse_u64_rec(s, i + 1, (acc * 10 + n) as u64));
    } else {
        let m = n / 10;
        let r = n % 10;
        let dm = dec_digits(m as nat);
        let lm = dm.len() as int;
        assert(ds == dm.push(digit_char(r as int)));
        assert(l == lm + 1);
        assert(pow10((lm + 1) as nat) == 10 * pow10(lm as nat));
        assert forall|k: int| 0 <= k < lm implies s.subrange(i, i + lm)[k] == dm[k] by {
            assert(ds[k] == s.subrange(i, i + l)[k]);
        }
        assert(s.subrange(i, i + lm) =~= dm);
        lemma_pow10_pos(lm as nat);
        assert(acc * pow10(dm.len()) + m <= u64::MAX) by (nonlinear_arith)
            requires
                acc * pow10((lm + 1) as nat) + n <= u64::MAX,
                pow10((lm + 1) as nat) == 10 * pow10(lm as nat),
                dm.len() == lm,
                n == 10 * m + r,
                0 <= r,
                0 <= acc,
                1 <= pow10(lm as nat),
                0 <= m,
        {}
        lemma_parse_u64_rec_block(s, i, acc, m);
        let acc2 = ((acc * pow10(dm.len()) + m) as u64);
        assert(s[i + lm] == s.subrange(i, i + l)[lm]);
        assert(s[i + lm] == digit_char(r as int));
        lemma_digit_char_val(r as int);
        assert(digit_val(s[i + lm]) == r);
        assert(acc2 * 10 + r == acc * pow10(ds.len()) + n) by (nonlinear_arith)
            requires
                acc2 == acc * pow10(lm as nat) + m,
                pow10((lm + 1) as nat) == 10 * pow10(lm as nat),
                ds.len() == lm + 1,
                dm.len() == lm,
                n == 10 * m + r,
        {}
        assert(parse_u64_rec(s, i + lm, acc2) == parse_u64_rec(
            s,
            i + l,
            (acc2 * 10 + digit_val(s[i + lm])) as u64,
        ));
    }
}

proof fn lemma_parse_u64_of_dec(s: Seq<char>, i: int, n: u64)
    requires
        0 <= i,
        i + dec_digits(n as nat).len() <= s.len(),
        s.subrange(i, i + dec_digits(n as nat).len() as int) == dec_digits(n as nat),
        i + dec_digits(n as nat).len() == s.len() || !is_digit(s[i + dec_digits(n as nat).len()]),
    ensures
        parse_u64(s, i) == Some((n, i + dec_digits(n as nat).len() as int)),
{
    let ds = dec_digits(n as nat);
    let l = ds.len() as int;
    lemma_dec_digits_first(n as nat);
    assert(s[i] == s.subrange(i, i + l)[0]);
    assert(is_digit(s[i]));
    assert(pow10(0) == 1);
    assert(0 * pow10(ds.len()) + n == n);
    lemma_parse_u64_rec_block(s, i, 0, n);
    assert(parse_u64_rec(s, i + l, n) == Some((n, i + l)));
}

proof fn lemma_parse_str_of_esc(s: Seq<char>, i: int, acc: Seq<char>, t: Seq<char>)
    requires
        0 <= i,
        i + esc(t).len() + 1 <= s.len(),
        s.subrange(i, i + esc(t).len() as int) == esc(t),
        s[i + esc(t).len()] == '"',
    ensures
        parse_str_rec(s, i, acc) == Some((acc + t, i + esc(t).len() + 1)),
    decreases t.len(),
{
    let et = esc(t);
    let l = et.len() as int;
    if t.len() == 0 {
        assert(l == 0);
        assert(s[i] == '"');
        assert(acc + t =~= acc);
    } else {
        let c = t[0];
        let rest = t.drop_first();
        let er = esc(rest);
        assert(et == esc_char(c) + er);
        if c == '"' || c == '\\' {
            assert(et[0] == '\\' && et[1] == c);
            assert(s[i] == s.subrange(i, i + l)[0]);
            assert(s[i + 1] == s.subrange(i, i + l)[1]);
            assert(s[i] == '\\' && s[i + 1] == c);
            lemma_subrange_within(s, i, et, 2, l);
            assert(et.subrange(2, l) =~= er);
            lemma_parse_str_of_esc(s, i + 2, acc.push(c), rest);
            assert(acc.push(c) + rest =~= acc + t);
            assert(parse_str_rec(s, i, acc) == parse_str_rec(s, i + 2, acc.push(c)));
        } else {
            assert(et[0] == c);
            assert(s[i] == s.subrange(i, i + l)[0]);
            assert(s[i] == c);
            lemma_subrange_within(s, i, et, 1, l);
            assert(et.subrange(1, l) =~= er);
            lemma_parse_str_of_esc(s, i + 1, acc.push(c), rest);
            assert(acc.push(c) + rest =~= acc + t);
            assert(parse_str_rec(s, i, acc) == parse_str_rec(s, i + 1, acc.push(c)));
        }
    }
}

proof fn lemma_parse_event_at(s: Seq<char>, i: int, e: EventView)
    requires
        0 <= i,
        i + spec_encode_event(e).len() <= s.len(),
        s.subrange(i, i + spec_encode_event(e).len() as int) == spec_encode_event(e),
    ensures
        parse_event(s, i) == Some((e, i + spec_encode_event(e).len() as int)),
{
    reveal_strlit("{\"Hello\":{\"payload\":\"");
    reveal_strlit("{\"Authenticate\":{\"username\":\"");
    reveal_strlit("{\"Print\":\"");
    reveal_strlit(",\"password\":\"");
    reveal_strlit("}}");
    reveal_strlit("}");
    let whole = spec_encode_event(e);
    let l = whole.len() as int;
    match e {
        EventView::Hello { payload } => {
            let h = lit_hello_pre();
            let ep = esc(payload);
            let hl = h.len() as int;
            lemma_subrange_within(s, i, whole, 0, hl);
            assert(whole.subrange(0, hl) =~= h);
            let j = i + hl;
            lemma_subrange_within(s, i, whole, hl, hl + ep.len());
            assert(whole.subrange(hl, hl + ep.len() as int) =~= ep);
            assert(s[j + ep.len()] == s.subrange(i, i + l)[hl + ep.len()]);
            assert(s[j + ep.len()] == '"');
            lemma_parse_str_of_esc(s, j, Seq::empty(), payload);
            assert(Seq::empty() + payload =~= payload);
            let k = j + ep.len() + 1;
            lemma_subrange_within(s, i, whole, hl + ep.len() + 1, l);
            assert(whole.subrange(hl + ep.len() + 1, l) =~= lit_obj_post());
            assert(parse_lit(s, k, lit_obj_post()) == Some(i + l));
        },
        EventView::Authenticate { username, password } => {
            let a = lit_auth_pre();
            let al = a.len() as int;
            let eu = esc(username);
            let mid = lit_pass_mid();
            let ml = mid.len() as int;
            let ep = esc(password);
            // The frame here starts with `{"A`, so the Hello tag cannot match.
            assert(s[i + 2] == s.subrange(i, i + l)[2]);
            assert(s[i + 2] == 'A');
            assert(parse_lit(s, i, lit_hello_pre()) is None) by {
                if 0 <= i && i + lit_hello_pre().len() <= s.len() && s.subrange(
                    i,
                    i + lit_hello_pre().len() as int,
                ) == lit_hello_pre() {
                    assert(s[i + 2] == s.subrange(i, i + lit_hello_pre().len() as int)[2]);
                    assert(false);
                }
            }
            lemma_subrange_within(s, i, whole, 0, al);
            assert(whole.subrange(0, al) =~= a);
            let j = i + al;
            lemma_subrange_within(s, i, whole, al, al + eu.len());
            assert(whole.subrange(al, al + eu.len() as int) =~= eu);
            assert(s[j + eu.len()] == s.subrange(i, i + l)[al + eu.len()]);
            assert(s[j + eu.len()] == '"');
            lemma_parse_str_of_esc(s, j, Seq::empty(), username);
            assert(Seq::empty() + username =~= username);
            let k = j + eu.len() + 1;
            lemma_subrange_within(s, i, whole, al + eu.len() + 1, al + eu.len() + 1 + ml);
            assert(whole.subrange(al + eu.len() + 1, al + eu.len() + 1 + ml) =~= mid);
            let m = k + ml;
            lemma_subrange_within(s, i, whole, al + eu.len() + 1 + ml, al + eu.len() + 1 + ml + ep.len());
            assert(whole.subrange(al + eu.len() + 1 + ml, al + eu.len() + 1 + ml + ep.len() as int)
                =~= ep);
            assert(s[m + ep.len()] == s.subrange(i, i + l)[al + eu.len() + 1 + ml + ep.len()]);
            assert(s[m + ep.len()] == '"');
            lemma_parse_str_of_esc(s, m, Seq::empty(), password);
            assert(Seq::empty() + password =~= password);
            let p = m + ep.len() + 1;
            lemma_subrange_within(s, i, whole, al + eu.len() + 1 + ml + ep.len() + 1, l);
            assert(whole.subrange(al + eu.len() + 1 + ml + ep.len() + 1, l) =~= lit_obj_post());
            assert(parse_lit(s, p, lit_obj_post()) == Some(i + l));
        },
        EventView::Print { text } => {
            let pr = lit_print_pre();
            let pl = pr.len() as int;
            let ep = esc(text);
            assert(s[i + 2] == s.subrange(i, i + l)[2]);
            assert(s[i + 2] == 'P');
            assert(parse_lit(s, i, lit_hello_pre()) is None) by {
                if 0 <= i && i + lit_hello_pre().len() <= s.len() && s.subrange(
                    i,
                    i + lit_hello_pre().len() as int,
                ) == lit_hello_pre() {
                    assert(s[i + 2] == s.subrange(i, i + lit_hello_pre().len() as int)[2]);
                    assert(false);
                }
            }
            assert(parse_lit(s, i, lit_auth_pre()) is None) by {
                if 0 <= i && i + lit_auth_pre().len() <= s.len() && s.subrange(
                    i,
                    i + lit_auth_pre().len() as int,
                ) == lit_auth_pre() {
                    assert(s[i + 2] == s.subrange(i, i + lit_auth_pre().len() as int)[2]);
                    assert(false);
                }
            }
            lemma_subrange_within(s, i, whole, 0, pl);
            assert(whole.subrange(0, pl) =~= pr);
            let j = i + pl;
            lemma_subrange_within(s, i, whole, pl, pl + ep.len());
            assert(whole.subrange(pl, pl + ep.len() as int) =~= ep);
            assert(s[j + ep.len()] == s.subrange(i, i + l)[pl + ep.len()]);
            assert(s[j + ep.len()] == '"');
            lemma_parse_str_of_esc(s, j, Seq::empty(), text);
            assert(Seq::empty() + text =~= text);
            let k = j + ep.len() + 1;
            lemma_subrange_within(s, i, whole, pl + ep.len() + 1, l);
            assert(whole.subrange(pl + ep.len() + 1, l) =~= lit_env_post());
            assert(parse_lit(s, k, lit_env_post()) == Some(i + l));
        },
    }
}

/// The round trip: every representable envelope, rendered by
/// `spec_encode`, parses back to exactly itself. Together with the
/// contracts of `encode` and `decode` this gives
/// `decode(encode(e)) == Ok(e)` for every envelope `e`.
pub proof fn lemma_decode_inverts_encode(v: EnvelopeView)
    ensures
        parse_envelope(spec_encode(v)) == Some(v),
{
    reveal_strlit("{\"timestamp\":");
    reveal_strlit(",\"data\":");
    reveal_strlit("}");
    let s = spec_encode(v);
    let a = lit_env_pre();
    let d = dec_digits(v.timestamp as nat);
    let b = lit_data_mid();
    let e = spec_encode_event(v.data);
    let c = lit_env_post();
    let i1 = a.len() as int;
    let i2 = i1 + d.len();
    let i3 = i2 + b.len();
    let i4 = i3 + e.len();
    assert(s.len() == i4 + 1);
    assert(s.subrange(0, i1) =~= a);
    assert(parse_lit(s, 0, a) == Some(i1));
    assert(s.subrange(i1, i2) =~= d);
    assert(s[i2] == ',');
    assert(!is_digit(s[i2]));
    lemma_parse_u64_of_dec(s, i1, v.timestamp);
    assert(parse_u64(s, i1) == Some((v.timestamp, i2)));
    assert(s.subrange(i2, i3) =~= b);
    assert(parse_lit(s, i2, b) == Some(i3));
    assert(s.subrange(i3, i4) =~= e);
    lemma_parse_event_at(s, i3, v.data);
    assert(parse_event(s, i3) == Some((v.data, i4)));
    assert(s.subrange(i4, i4 + 1) =~= c);
    assert(parse_lit(s, i4, c) == Some(i4 + 1));
    assert(parse_envelope(s) == Some(EnvelopeView { timestamp: v.timestamp, data: v.data }));
    assert(EnvelopeView { timestamp: v.timestamp, data: v.data } == v);
}

} // verus!
