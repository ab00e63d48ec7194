//! Decoding one framed JSON value into a progress event.
//!
//! The framer hands over the exact bytes of one JSON value; this module
//! parses them against the closed set of shapes the daemon emits — a
//! build-output line, an error, a digest, or a pull status — trying the
//! shapes in that fixed order, and fails the stream on anything else.
//! Strings carry the full escape repertoire, `\uXXXX` and surrogate
//! pairs included. The members a shape reads must have the shape's
//! types — byte counts are unsigned integers, as the daemon sends
//! them — while members no shape reads are skipped whatever they
//! hold, be it an array, a deep object or a fractional number; a
//! skipped member is checked only for balanced brackets and strings,
//! not for full well-formedness.

use vstd::prelude::*;
use vstd::string::StrSliceExecFns;
use vstd::utf8::encode_utf8;

use crate::errors::Error;
use crate::rep::{Aux, ErrorDetail, ImageBuildChunk, ProgressDetail};

verus! {

/// JSON insignificant whitespace.
pub open spec fn is_ws_byte(b: u8) -> bool {
    b == 0x20 || b == 0x09 || b == 0x0a || b == 0x0d
}

/// An ASCII digit.
pub open spec fn is_digit(b: u8) -> bool {
    0x30 <= b <= 0x39
}

/// The position of the first non-whitespace byte at or after `i`.
pub open spec fn skip_ws(s: Seq<u8>, i: int) -> int
    decreases s.len() - i
        when 0 <= i <= s.len()
{
    if i < s.len() && is_ws_byte(s[i]) {
        skip_ws(s, i + 1)
    } else {
        i
    }
}

/// Whitespace skipping stays within bounds.
pub proof fn lemma_skip_ws_bounds(s: Seq<u8>, i: int)
    requires
        0 <= i <= s.len(),
    ensures
        i <= skip_ws(s, i) <= s.len(),
    decreases s.len() - i,
{
    if i < s.len() && is_ws_byte(s[i]) {
        lemma_skip_ws_bounds(s, i + 1);
    }
}

/// One parsed JSON value of the event grammar. `Num` holds the raw
/// token of a number that is not a plain unsigned integer; `Opaque`
/// holds the raw bytes of a skipped array or deeper object.
pub ghost enum JVal {
    Str(Seq<u8>),
    Int(u64),
    Num(Seq<u8>),
    Bool(bool),
    Null,
    Obj(Seq<(Seq<u8>, JVal)>),
    Opaque(Seq<u8>),
}

/// The value of a hex digit.
pub open spec fn hex_val(b: u8) -> Option<int> {
    if 0x30 <= b <= 0x39 {
        Some((b - 0x30) as int)
    } else if 0x61 <= b <= 0x66 {
        Some((b - 0x61 + 10) as int)
    } else if 0x41 <= b <= 0x46 {
        Some((b - 0x41 + 10) as int)
    } else {
        None
    }
}

/// The value of four hex digits at `i`.
pub open spec fn hex4(s: Seq<u8>, i: int) -> Option<int>
    recommends
        0 <= i && i + 4 <= s.len(),
{
    match (hex_val(s[i]), hex_val(s[i + 1]), hex_val(s[i + 2]), hex_val(s[i + 3])) {
        (Some(a), Some(b), Some(c), Some(d)) => Some(a * 0x1000 + b * 0x100 + c * 0x10 + d),
        _ => None,
    }
}

/// The UTF-8 bytes of one scalar value.
pub open spec fn utf8_of_cp(cp: int) -> Seq<u8> {
    if cp < 0x80 {
        seq![cp as u8]
    } else if cp < 0x800 {
        seq![(0xc0 + cp / 0x40) as u8, (0x80 + cp % 0x40) as u8]
    } else if cp < 0x10000 {
        seq![(0xe0 + cp / 0x1000) as u8, (0x80 + (cp / 0x40) % 0x40) as u8, (0x80 + cp % 0x40) as u8]
    } else {
        seq![
            (0xf0 + cp / 0x40000) as u8,
            (0x80 + (cp / 0x1000) % 0x40) as u8,
            (0x80 + (cp / 0x40) % 0x40) as u8,
            (0x80 + cp % 0x40) as u8,
        ]
    }
}

/// Whether a code unit is a high surrogate.
pub open spec fn is_high_surrogate(c: int) -> bool {
    0xd800 <= c < 0xdc00
}

/// Whether a code unit is a low surrogate.
pub open spec fn is_low_surrogate(c: int) -> bool {
    0xdc00 <= c < 0xe000
}

/// The unescaped byte an escape character stands for.
pub open spec fn unescape(b: u8) -> Option<u8> {
    if b == 0x22 {
        Some(0x22u8)
    } else if b == 0x5c {
        Some(0x5cu8)
    } else if b == 0x2f {
        Some(0x2fu8)
    } else if b == 0x62 {
        Some(0x08u8)
    } else if b == 0x66 {
        Some(0x0cu8)
    } else if b == 0x6e {
        Some(0x0au8)
    } else if b == 0x72 {
        Some(0x0du8)
    } else if b == 0x74 {
        Some(0x09u8)
    } else {
        None
    }
}

/// The body of a string literal from `i`, with `acc` already read:
/// the unescaped content and the position after the closing quote.
pub open spec fn parse_str_body(s: Seq<u8>, i: int, acc: Seq<u8>) -> Option<(Seq<u8>, int)>
    decreases s.len() - i
        when 0 <= i <= s.len()
{
    if i >= s.len() {
        None
    } else if s[i] == 0x22 {
        Some((acc, i + 1))
    } else if s[i] == 0x5c {
        if i + 1 >= s.len() {
            None
        } else if s[i + 1] == 0x75 {
            if i + 6 > s.len() {
                None
            } else {
                match hex4(s, i + 2) {
                    Some(c1) => if is_high_surrogate(c1) {
                        if i + 12 > s.len() || s[i + 6] != 0x5c || s[i + 7] != 0x75 {
                            None
                        } else {
                            match hex4(s, i + 8) {
                                Some(c2) => if is_low_surrogate(c2) {
                                    parse_str_body(
                                        s,
                                        i + 12,
                                        acc + utf8_of_cp(
                                            0x10000 + (c1 - 0xd800) * 0x400 + (c2 - 0xdc00),
                                        ),
                                    )
                                } else {
                                    None
                                },
                                None => None,
                            }
                        }
                    } else if is_low_surrogate(c1) {
                        None
                    } else {
                        parse_str_body(s, i + 6, acc + utf8_of_cp(c1))
                    },
                    None => None,
                }
            }
        } else {
            match unescape(s[i + 1]) {
                Some(b) => parse_str_body(s, i + 2, acc.push(b)),
                None => None,
            }
        }
    } else {
        parse_str_body(s, i + 1, acc.push(s[i]))
    }
}

/// A string literal starting at `i`.
pub open spec fn parse_string(s: Seq<u8>, i: int) -> Option<(Seq<u8>, int)> {
    if 0 <= i < s.len() && s[i] == 0x22 {
        parse_str_body(s, i + 1, Seq::empty())
    } else {
        None
    }
}

/// A string parse ends within bounds, past its start.
pub proof fn lemma_parse_str_body_bounds(s: Seq<u8>, i: int, acc: Seq<u8>)
    requires
        0 <= i <= s.len(),
    ensures
        match parse_str_body(s, i, acc) {
            Some(r) => i < r.1 <= s.len(),
            None => true,
        },
    decreases s.len() - i,
{
    if i < s.len() {
        if s[i] == 0x22 {
        } else if s[i] == 0x5c {
            if i + 1 < s.len() {
                if s[i + 1] == 0x75 {
                    if i + 6 <= s.len() {
                        match hex4(s, i + 2) {
                            Some(c1) => {
                                if is_high_surrogate(c1) {
                                    if i + 12 <= s.len() && s[i + 6] == 0x5c && s[i + 7] == 0x75 {
                                        match hex4(s, i + 8) {
                                            Some(c2) => {
                                                if is_low_surrogate(c2) {
                                                    lemma_parse_str_body_bounds(
                                                        s,
                                                        i + 12,
                                                        acc + utf8_of_cp(
                                                            0x10000 + (c1 - 0xd800) * 0x400 + (
                                                            c2 - 0xdc00),
                                                        ),
                                                    );
                                                }
                                            },
                                            None => {},
                                        }
                                    }
                                } else if !is_low_surrogate(c1) {
                                    lemma_parse_str_body_bounds(s, i + 6, acc + utf8_of_cp(c1));
                                }
                            },
                            None => {},
                        }
                    }
                } else {
                    match unescape(s[i + 1]) {
                        Some(b) => {
                            lemma_parse_str_body_bounds(s, i + 2, acc.push(b));
                        },
                        None => {},
                    }
                }
            }
        } else {
            lemma_parse_str_body_bounds(s, i + 1, acc.push(s[i]));
        }
    }
}

/// A run of digits from `i` with `acc` already read; fails once the
/// value leaves `u64`.
pub open spec fn parse_digits(s: Seq<u8>, i: int, acc: int) -> Option<(int, int)>
    decreases s.len() - i
        when 0 <= i <= s.len()
{
    if acc > 0xffff_ffff_ffff_ffff {
        None
    } else if i < s.len() && is_digit(s[i]) {
        parse_digits(s, i + 1, acc * 10 + (s[i] - 0x30))
    } else {
        Some((acc, i))
    }
}

/// A digit run ends within bounds and within `u64`.
pub proof fn lemma_parse_digits_bounds(s: Seq<u8>, i: int, acc: int)
    requires
        0 <= i <= s.len(),
        acc >= 0,
    ensures
        match parse_digits(s, i, acc) {
            Some(r) => i <= r.1 <= s.len() && 0 <= r.0 <= 0xffff_ffff_ffff_ffff,
            None => true,
        },
    decreases s.len() - i,
{
    if acc > 0xffff_ffff_ffff_ffff {
    } else if i < s.len() && is_digit(s[i]) {
        lemma_parse_digits_bounds(s, i + 1, acc * 10 + (s[i] - 0x30));
    }
}

/// An unsigned integer starting at `i`; anything else a JSON number
/// may hold — a sign, a fraction, an exponent — does not parse.
pub open spec fn parse_number(s: Seq<u8>, i: int) -> Option<(u64, int)> {
    if 0 <= i < s.len() && is_digit(s[i]) {
        match parse_digits(s, i + 1, s[i] - 0x30) {
            Some(r) => if i + 1 <= r.1 <= s.len() && 0 <= r.0 <= 0xffff_ffff_ffff_ffff {
                Some((r.0 as u64, r.1))
            } else {
                None
            },
            None => None,
        }
    } else {
        None
    }
}


/// A byte that ends a bare token: whitespace, comma, or a closing
/// bracket.
pub open spec fn is_stop(b: u8) -> bool {
    is_ws_byte(b) || b == 0x2c || b == 0x7d || b == 0x5d
}

/// The end of the bare token starting at `i`.
pub open spec fn tok_end(s: Seq<u8>, i: int) -> int
    decreases s.len() - i
        when 0 <= i <= s.len()
{
    if i >= s.len() || is_stop(s[i]) {
        i
    } else {
        tok_end(s, i + 1)
    }
}

/// A bare token ends within bounds.
pub proof fn lemma_tok_end_bounds(s: Seq<u8>, i: int)
    requires
        0 <= i <= s.len(),
    ensures
        i <= tok_end(s, i) <= s.len(),
    decreases s.len() - i,
{
    if i < s.len() && !is_stop(s[i]) {
        lemma_tok_end_bounds(s, i + 1);
    }
}

/// The position after the bracket that closes a nesting of `depth`
/// open brackets, the scan standing at `i` (inside a string when
/// `in_str`, behind a backslash when `esc`). Bracket kinds are not
/// matched; this checks balance, not full well-formedness.
pub open spec fn scan_nest_end(s: Seq<u8>, i: int, depth: int, in_str: bool, esc: bool) -> Option<
    int,
>
    decreases s.len() - i
        when 0 <= i <= s.len()
{
    if i >= s.len() {
        None
    } else if in_str {
        if esc {
            scan_nest_end(s, i + 1, depth, true, false)
        } else if s[i] == 0x5c {
            scan_nest_end(s, i + 1, depth, true, true)
        } else if s[i] == 0x22 {
            scan_nest_end(s, i + 1, depth, false, false)
        } else {
            scan_nest_end(s, i + 1, depth, true, false)
        }
    } else if s[i] == 0x22 {
        scan_nest_end(s, i + 1, depth, true, false)
    } else if s[i] == 0x7b || s[i] == 0x5b {
        scan_nest_end(s, i + 1, depth + 1, false, false)
    } else if s[i] == 0x7d || s[i] == 0x5d {
        if depth == 1 {
            Some(i + 1)
        } else {
            scan_nest_end(s, i + 1, depth - 1, false, false)
        }
    } else {
        scan_nest_end(s, i + 1, depth, false, false)
    }
}

/// A nesting scan ends within bounds, past its start.
pub proof fn lemma_scan_nest_end_bounds(s: Seq<u8>, i: int, depth: int, in_str: bool, esc: bool)
    requires
        0 <= i <= s.len(),
    ensures
        match scan_nest_end(s, i, depth, in_str, esc) {
            Some(r) => i < r <= s.len(),
            None => true,
        },
    decreases s.len() - i,
{
    if i < s.len() {
        if in_str {
            if esc {
                lemma_scan_nest_end_bounds(s, i + 1, depth, true, false);
            } else if s[i] == 0x5c {
                lemma_scan_nest_end_bounds(s, i + 1, depth, true, true);
            } else if s[i] == 0x22 {
                lemma_scan_nest_end_bounds(s, i + 1, depth, false, false);
            } else {
                lemma_scan_nest_end_bounds(s, i + 1, depth, true, false);
            }
        } else if s[i] == 0x22 {
            lemma_scan_nest_end_bounds(s, i + 1, depth, true, false);
        } else if s[i] == 0x7b || s[i] == 0x5b {
            lemma_scan_nest_end_bounds(s, i + 1, depth + 1, false, false);
        } else if s[i] == 0x7d || s[i] == 0x5d {
            if depth != 1 {
                lemma_scan_nest_end_bounds(s, i + 1, depth - 1, false, false);
            }
        } else {
            lemma_scan_nest_end_bounds(s, i + 1, depth, false, false);
        }
    }
}

/// Whether `s` holds `lit` starting at `i`.
pub open spec fn has_lit_at(s: Seq<u8>, i: int, lit: Seq<u8>) -> bool {
    0 <= i && i + lit.len() <= s.len() && s.subrange(i, i + lit.len()) == lit
}

/// One value starting at `i`: a string, unsigned integer, `true`,
/// `false`, `null`, or — while `depth` allows — an object.
pub open spec fn parse_value(s: Seq<u8>, i: int, depth: int) -> Option<(JVal, int)>
    decreases depth, 1int, 0int
        when 0 <= i <= s.len() && depth >= 0
{
    if i >= s.len() {
        None
    } else if s[i] == 0x22 {
        match parse_string(s, i) {
            Some(r) => Some((JVal::Str(r.0), r.1)),
            None => None,
        }
    } else if is_digit(s[i]) {
        let e = tok_end(s, i);
        match parse_number(s, i) {
            Some(r) => if r.1 == e {
                Some((JVal::Int(r.0), r.1))
            } else {
                Some((JVal::Num(s.subrange(i, e)), e))
            },
            None => Some((JVal::Num(s.subrange(i, e)), e)),
        }
    } else if has_lit_at(s, i, seq![0x74u8, 0x72u8, 0x75u8, 0x65u8]) {
        Some((JVal::Bool(true), i + 4))
    } else if has_lit_at(s, i, seq![0x66u8, 0x61u8, 0x6cu8, 0x73u8, 0x65u8]) {
        Some((JVal::Bool(false), i + 5))
    } else if has_lit_at(s, i, seq![0x6eu8, 0x75u8, 0x6cu8, 0x6cu8]) {
        Some((JVal::Null, i + 4))
    } else if s[i] == 0x7b && depth >= 1 {
        let j = skip_ws(s, i + 1);
        if j < s.len() && s[j] == 0x7d {
            Some((JVal::Obj(Seq::empty()), j + 1))
        } else {
            match parse_members(s, j, depth, s.len() as int) {
                Some(r) => Some((JVal::Obj(r.0), r.1)),
                None => None,
            }
        }
    } else if s[i] == 0x7b || s[i] == 0x5b {
        match scan_nest_end(s, i + 1, 1, false, false) {
            Some(e) => Some((JVal::Opaque(s.subrange(i, e)), e)),
            None => None,
        }
    } else if is_stop(s[i]) || s[i] == 0x3a {
        None
    } else {
        Some((JVal::Num(s.subrange(i, tok_end(s, i))), tok_end(s, i)))
    }
}

/// Object members from `i` on: `"key": value`, comma-separated, up to
/// and including the closing brace. `fuel` bounds the member count; a
/// member takes at least one byte, so the input's length is always
/// enough.
pub open spec fn parse_members(s: Seq<u8>, i: int, depth: int, fuel: int) -> Option<
    (Seq<(Seq<u8>, JVal)>, int),
>
    decreases depth, 0int, fuel
        when 0 <= i <= s.len() && depth >= 1 && fuel >= 0
{
    if fuel == 0 {
        None
    } else {
        match parse_string(s, i) {
            Some(k) => {
                if !(i < k.1 <= s.len()) {
                    None
                } else {
                    let c = skip_ws(s, k.1);
                    if !(k.1 <= c <= s.len()) || c >= s.len() || s[c] != 0x3a {
                        None
                    } else {
                        let v = skip_ws(s, c + 1);
                        if !(c + 1 <= v <= s.len()) {
                            None
                        } else {
                            match parse_value(s, v, depth - 1) {
                                Some(r) => {
                                    if !(v <= r.1 <= s.len()) {
                                        None
                                    } else {
                                        let e = skip_ws(s, r.1);
                                        if !(r.1 <= e <= s.len()) || e >= s.len() {
                                            None
                                        } else if s[e] == 0x7d {
                                            Some((seq![(k.0, r.0)], e + 1))
                                        } else if s[e] == 0x2c {
                                            let n = skip_ws(s, e + 1);
                                            if !(e + 1 <= n <= s.len()) {
                                                None
                                            } else {
                                                match parse_members(s, n, depth, fuel - 1) {
                                                    Some(rest) => Some(
                                                        (seq![(k.0, r.0)] + rest.0, rest.1),
                                                    ),
                                                    None => None,
                                                }
                                            }
                                        } else {
                                            None
                                        }
                                    }
                                },
                                None => None,
                            }
                        }
                    }
                }
            },
            None => None,
        }
    }
}

/// A value parse ends within bounds, past its start.
pub proof fn lemma_parse_value_bounds(s: Seq<u8>, i: int, depth: int)
    requires
        0 <= i <= s.len(),
        depth >= 0,
    ensures
        match parse_value(s, i, depth) {
            Some(r) => i < r.1 <= s.len(),
            None => true,
        },
    decreases depth, 1int, 0int,
{
    if i < s.len() {
        if s[i] == 0x22 {
            lemma_parse_str_body_bounds(s, i + 1, Seq::empty());
        } else if is_digit(s[i]) {
            lemma_parse_digits_bounds(s, i + 1, s[i] - 0x30);
            lemma_tok_end_bounds(s, i + 1);
            assert(tok_end(s, i) == tok_end(s, i + 1));
        } else if has_lit_at(s, i, seq![0x74u8, 0x72u8, 0x75u8, 0x65u8]) {
        } else if has_lit_at(s, i, seq![0x66u8, 0x61u8, 0x6cu8, 0x73u8, 0x65u8]) {
        } else if has_lit_at(s, i, seq![0x6eu8, 0x75u8, 0x6cu8, 0x6cu8]) {
        } else if s[i] == 0x7b && depth >= 1 {
            lemma_skip_ws_bounds(s, i + 1);
            let j = skip_ws(s, i + 1);
            if !(j < s.len() && s[j] == 0x7d) {
                lemma_parse_members_bounds(s, j, depth, s.len() as int);
            }
        } else if s[i] == 0x7b || s[i] == 0x5b {
            lemma_scan_nest_end_bounds(s, i + 1, 1, false, false);
        } else if !(is_stop(s[i]) || s[i] == 0x3a) {
            lemma_tok_end_bounds(s, i + 1);
            assert(tok_end(s, i) == tok_end(s, i + 1));
        }
    }
}

/// A member parse ends within bounds, past its start.
pub proof fn lemma_parse_members_bounds(s: Seq<u8>, i: int, depth: int, fuel: int)
    requires
        0 <= i <= s.len(),
        depth >= 1,
        fuel >= 0,
    ensures
        match parse_members(s, i, depth, fuel) {
            Some(r) => i < r.1 <= s.len(),
            None => true,
        },
    decreases depth, 0int, fuel,
{
    if fuel > 0 {
        match parse_string(s, i) {
            Some(k) => {
                lemma_parse_str_body_bounds(s, i + 1, Seq::empty());
                if i < k.1 <= s.len() {
                    lemma_skip_ws_bounds(s, k.1);
                    let c = skip_ws(s, k.1);
                    if c < s.len() && s[c] == 0x3a {
                        lemma_skip_ws_bounds(s, c + 1);
                        let v = skip_ws(s, c + 1);
                        lemma_parse_value_bounds(s, v, depth - 1);
                        match parse_value(s, v, depth - 1) {
                            Some(r) => {
                                lemma_skip_ws_bounds(s, r.1);
                                let e = skip_ws(s, r.1);
                                if e < s.len() && s[e] == 0x2c {
                                    lemma_skip_ws_bounds(s, e + 1);
                                    lemma_parse_members_bounds(
                                        s,
                                        skip_ws(s, e + 1),
                                        depth,
                                        fuel - 1,
                                    );
                                }
                            },
                            None => {},
                        }
                    }
                }
            },
            None => {},
        }
    }
}

/// A scalar member value.
pub enum JScalar {
    Str(Vec<u8>),
    Int(u64),
    Bool(bool),
    Null,
    /// A value no shape reads — a number that is not a plain unsigned
    /// integer, or a skipped array or deeper object — carried only as
    /// the ghost of what it parsed to.
    Skip(Ghost<JVal>),
}

/// A member value of the top-level object: a scalar, or one nested
/// object of scalars — as deep as the event grammar goes.
pub enum JItem {
    Scalar(JScalar),
    Obj(Vec<(Vec<u8>, JScalar)>),
}

/// The ghost value a scalar stands for.
pub open spec fn sview(v: JScalar) -> JVal {
    match v {
        JScalar::Str(b) => JVal::Str(b@),
        JScalar::Int(n) => JVal::Int(n),
        JScalar::Bool(b) => JVal::Bool(b),
        JScalar::Null => JVal::Null,
        JScalar::Skip(g) => g@,
    }
}

/// A skipped scalar only ever stands for a number or an opaque value.
pub open spec fn scalar_wf(v: JScalar) -> bool {
    match v {
        JScalar::Skip(g) => g@ is Num || g@ is Opaque,
        _ => true,
    }
}

/// Every member value of a flat object is well-formed.
pub open spec fn flat_wf(ms: Vec<(Vec<u8>, JScalar)>) -> bool {
    forall|k: int| 0 <= k < ms@.len() ==> scalar_wf((#[trigger] ms@[k]).1)
}

/// A top-level member value is well-formed through and through.
pub open spec fn item_wf(v: JItem) -> bool {
    match v {
        JItem::Scalar(sc) => scalar_wf(sc),
        JItem::Obj(ms) => flat_wf(ms),
    }
}

/// Every member value of the top-level object is well-formed.
pub open spec fn top_wf(ms: Vec<(Vec<u8>, JItem)>) -> bool {
    forall|k: int| 0 <= k < ms@.len() ==> item_wf((#[trigger] ms@[k]).1)
}

/// The ghost members a flat member list stands for.
pub open spec fn flatview(ms: Vec<(Vec<u8>, JScalar)>) -> Seq<(Seq<u8>, JVal)> {
    Seq::new(ms@.len(), |k: int| (ms@[k].0@, sview(ms@[k].1)))
}

/// The ghost value a top-level member value stands for.
pub open spec fn iview(v: JItem) -> JVal {
    match v {
        JItem::Scalar(sc) => sview(sc),
        JItem::Obj(ms) => JVal::Obj(flatview(ms)),
    }
}

/// The ghost members the top-level member list stands for.
pub open spec fn topview(ms: Vec<(Vec<u8>, JItem)>) -> Seq<(Seq<u8>, JVal)> {
    Seq::new(ms@.len(), |k: int| (ms@[k].0@, iview(ms@[k].1)))
}

/// Skip whitespace, as [`skip_ws`].
fn skip_ws_x(s: &Vec<u8>, i: usize) -> (r: usize)
    requires
        i <= s@.len(),
    ensures
        r == skip_ws(s@, i as int),
        i <= r <= s@.len(),
    decreases s@.len() - i,
{
    if i < s.len() && (s[i] == 0x20 || s[i] == 0x09 || s[i] == 0x0a || s[i] == 0x0d) {
        skip_ws_x(s, i + 1)
    } else {
        i
    }
}


/// The value of one hex digit, as [`hex_val`].
fn hexd(b: u8) -> (r: Option<u8>)
    ensures
        match r {
            Some(d) => hex_val(b) == Some(d as int) && d < 16,
            None => hex_val(b) is None,
        },
{
    if 0x30 <= b && b <= 0x39 {
        Some(b - 0x30)
    } else if 0x61 <= b && b <= 0x66 {
        Some(b - 0x61 + 10)
    } else if 0x41 <= b && b <= 0x46 {
        Some(b - 0x41 + 10)
    } else {
        None
    }
}

/// Read four hex digits at `i`, as [`hex4`].
fn hex4_x(s: &Vec<u8>, i: usize) -> (r: Option<u32>)
    requires
        i + 4 <= s@.len(),
    ensures
        match r {
            Some(v) => hex4(s@, i as int) == Some(v as int) && v < 0x10000,
            None => hex4(s@, i as int) is None,
        },
{
    let n = s.len();
    assert(i + 4 <= n);
    let d0 = match hexd(s[i]) {
        Some(d) => d,
        None => {
            return None;
        },
    };
    let d1 = match hexd(s[i + 1]) {
        Some(d) => d,
        None => {
            return None;
        },
    };
    let d2 = match hexd(s[i + 2]) {
        Some(d) => d,
        None => {
            return None;
        },
    };
    let d3 = match hexd(s[i + 3]) {
        Some(d) => d,
        None => {
            return None;
        },
    };
    Some((d0 as u32) * 0x1000 + (d1 as u32) * 0x100 + (d2 as u32) * 0x10 + (d3 as u32))
}

/// Append the UTF-8 bytes of one scalar value, as [`utf8_of_cp`].
fn push_utf8(out: &mut Vec<u8>, cp: u32)
    requires
        cp < 0x110000,
    ensures
        final(out)@ == old(out)@ + utf8_of_cp(cp as int),
{
    if cp < 0x80 {
        out.push(cp as u8);
        proof {
            assert(old(out)@ + utf8_of_cp(cp as int) =~= out@);
        }
    } else if cp < 0x800 {
        out.push((0xc0 + cp / 0x40) as u8);
        out.push((0x80 + cp % 0x40) as u8);
        proof {
            assert(old(out)@ + utf8_of_cp(cp as int) =~= out@);
        }
    } else if cp < 0x10000 {
        out.push((0xe0 + cp / 0x1000) as u8);
        out.push((0x80 + (cp / 0x40) % 0x40) as u8);
        out.push((0x80 + cp % 0x40) as u8);
        proof {
            assert(old(out)@ + utf8_of_cp(cp as int) =~= out@);
        }
    } else {
        out.push((0xf0 + cp / 0x40000) as u8);
        out.push((0x80 + (cp / 0x1000) % 0x40) as u8);
        out.push((0x80 + (cp / 0x40) % 0x40) as u8);
        out.push((0x80 + cp % 0x40) as u8);
        proof {
            assert(old(out)@ + utf8_of_cp(cp as int) =~= out@);
        }
    }
}

/// Read a string literal\'s body, as [`parse_str_body`].
fn parse_str_body_x(s: &Vec<u8>, i: usize, acc: Vec<u8>) -> (r: Option<(Vec<u8>, usize)>)
    requires
        i <= s@.len(),
    ensures
        match r {
            Some(p) => parse_str_body(s@, i as int, acc@) == Some((p.0@, p.1 as int)) && p.1
                <= s@.len(),
            None => parse_str_body(s@, i as int, acc@) is None,
        },
    decreases s@.len() - i,
{
    if i >= s.len() {
        None
    } else if s[i] == 0x22 {
        Some((acc, i + 1))
    } else if s[i] == 0x5c {
        if i + 1 >= s.len() {
            None
        } else if s[i + 1] == 0x75 {
            let n = s.len();
            if n - i < 6 {
                proof {
                    assert(i + 6 > s@.len());
                }
                return None;
            }
            let c1 = match hex4_x(s, i + 2) {
                Some(c) => c,
                None => {
                    return None;
                },
            };
            if 0xd800 <= c1 && c1 < 0xdc00 {
                if n - i < 12 {
                    proof {
                        assert(i + 12 > s@.len());
                    }
                    return None;
                }
                if s[i + 6] != 0x5c || s[i + 7] != 0x75 {
                    return None;
                }
                let c2 = match hex4_x(s, i + 8) {
                    Some(c) => c,
                    None => {
                        return None;
                    },
                };
                if !(0xdc00 <= c2 && c2 < 0xe000) {
                    return None;
                }
                let cp: u32 = 0x10000 + (c1 - 0xd800) * 0x400 + (c2 - 0xdc00);
                let mut acc2 = acc;
                push_utf8(&mut acc2, cp);
                parse_str_body_x(s, i + 12, acc2)
            } else if 0xdc00 <= c1 && c1 < 0xe000 {
                None
            } else {
                let mut acc2 = acc;
                push_utf8(&mut acc2, c1);
                parse_str_body_x(s, i + 6, acc2)
            }
        } else {
            let e = s[i + 1];
            let ub: u8 = if e == 0x22 {
                0x22
            } else if e == 0x5c {
                0x5c
            } else if e == 0x2f {
                0x2f
            } else if e == 0x62 {
                0x08
            } else if e == 0x66 {
                0x0c
            } else if e == 0x6e {
                0x0a
            } else if e == 0x72 {
                0x0d
            } else if e == 0x74 {
                0x09
            } else {
                return None;
            };
            assert(unescape(e) == Some(ub));
            let mut acc2 = acc;
            acc2.push(ub);
            parse_str_body_x(s, i + 2, acc2)
        }
    } else {
        let b = s[i];
        let mut acc2 = acc;
        acc2.push(b);
        parse_str_body_x(s, i + 1, acc2)
    }
}

/// Read a string literal, as [`parse_string`].
fn parse_string_x(s: &Vec<u8>, i: usize) -> (r: Option<(Vec<u8>, usize)>)
    requires
        i <= s@.len(),
    ensures
        match r {
            Some(p) => parse_string(s@, i as int) == Some((p.0@, p.1 as int)) && i < p.1
                <= s@.len(),
            None => parse_string(s@, i as int) is None,
        },
{
    if i < s.len() && s[i] == 0x22 {
        proof {
            lemma_parse_str_body_bounds(s@, i + 1, Seq::empty());
        }
        let acc: Vec<u8> = Vec::new();
        parse_str_body_x(s, i + 1, acc)
    } else {
        None
    }
}

/// Read an unsigned integer, as [`parse_number`].
fn parse_number_x(s: &Vec<u8>, i: usize) -> (r: Option<(u64, usize)>)
    requires
        i <= s@.len(),
    ensures
        match r {
            Some(p) => parse_number(s@, i as int) == Some((p.0, p.1 as int)) && i < p.1
                <= s@.len(),
            None => parse_number(s@, i as int) is None,
        },
{
    if i < s.len() && 0x30 <= s[i] && s[i] <= 0x39 {
        let ghost d0 = (s@[i as int] - 0x30) as int;
        let mut acc: u128 = (s[i] - 0x30) as u128;
        let mut j: usize = i + 1;
        loop
            invariant
                i + 1 <= j <= s@.len(),
                acc <= 0xffff_ffff_ffff_ffff,
                i < s@.len() && is_digit(s@[i as int]),
                d0 == (s@[i as int] - 0x30) as int,
                parse_digits(s@, i + 1, d0) == parse_digits(s@, j as int, acc as int),
            decreases s@.len() - j,
        {
            if j < s.len() && 0x30 <= s[j] && s[j] <= 0x39 {
                let d = (s[j] - 0x30) as u128;
                acc = acc * 10 + d;
                j += 1;
                if acc > 0xffff_ffff_ffff_ffff {
                    assert(parse_digits(s@, j as int, acc as int) is None);
                    assert(parse_number(s@, i as int) is None);
                    return None;
                }
            } else {
                assert(parse_digits(s@, j as int, acc as int) == Some((acc as int, j as int)));
                assert(parse_number(s@, i as int) == Some((acc as u64, j as int)));
                return Some((acc as u64, j));
            }
        }
    } else {
        None
    }
}

/// Whether `s` holds `lit` at `i`, for a short ASCII literal.
fn has_lit_at_x(s: &Vec<u8>, i: usize, lit: &Vec<u8>) -> (r: bool)
    requires
        i <= s@.len(),
    ensures
        r == has_lit_at(s@, i as int, lit@),
{
    let m = lit.len();
    if s.len() - i < m {
        proof {
            assert(!has_lit_at(s@, i as int, lit@));
        }
        return false;
    }
    let nn = s.len();
    let mut k: usize = 0;
    while k < m
        invariant
            k <= m,
            m == lit@.len(),
            nn == s@.len(),
            i + m <= s@.len(),
            forall|j: int| 0 <= j < k ==> s@[i + j] == lit@[j],
        decreases m - k,
    {
        proof {
            assert(i + k < s@.len());
        }
        if s[i + k] != lit[k] {
            proof {
                assert(s@.subrange(i as int, i + m)[k as int] != lit@[k as int]);
            }
            return false;
        }
        k += 1;
    }
    proof {
        assert(s@.subrange(i as int, i + m) =~= lit@);
    }
    true
}

/// Find the end of a bare token, as [`tok_end`].
fn tok_end_x(s: &Vec<u8>, i: usize) -> (r: usize)
    requires
        i <= s@.len(),
    ensures
        r == tok_end(s@, i as int),
        i <= r <= s@.len(),
    decreases s@.len() - i,
{
    if i < s.len() {
        let b = s[i];
        if !(b == 0x20 || b == 0x09 || b == 0x0a || b == 0x0d || b == 0x2c || b == 0x7d || b
            == 0x5d) {
            return tok_end_x(s, i + 1);
        }
    }
    i
}

/// Find the end of the bracketed value opened just before `start`, as
/// [`scan_nest_end`] from depth one.
fn scan_nest_end_x(s: &Vec<u8>, start: usize) -> (r: Option<usize>)
    requires
        start <= s@.len(),
    ensures
        match r {
            Some(e) => scan_nest_end(s@, start as int, 1, false, false) == Some(e as int) && start
                < e <= s@.len(),
            None => scan_nest_end(s@, start as int, 1, false, false) is None,
        },
{
    let n = s.len();
    let mut i = start;
    let mut depth: u128 = 1;
    let mut in_str = false;
    let mut esc = false;
    while i < n
        invariant
            start <= i <= n,
            n == s@.len(),
            1 <= depth <= i - start + 1,
            !in_str ==> !esc,
            scan_nest_end(s@, start as int, 1, false, false) == scan_nest_end(
                s@,
                i as int,
                depth as int,
                in_str,
                esc,
            ),
        decreases n - i,
    {
        let b = s[i];
        if in_str {
            if esc {
                esc = false;
            } else if b == 0x5c {
                esc = true;
            } else if b == 0x22 {
                in_str = false;
            }
        } else if b == 0x22 {
            in_str = true;
        } else if b == 0x7b || b == 0x5b {
            depth = depth + 1;
        } else if b == 0x7d || b == 0x5d {
            if depth == 1 {
                return Some(i + 1);
            }
            depth = depth - 1;
        }
        i += 1;
    }
    None
}

/// Read one scalar, as [`parse_value`] at depth zero.
fn parse_scalar_x(s: &Vec<u8>, i: usize) -> (r: Option<(JScalar, usize)>)
    requires
        i <= s@.len(),
    ensures
        match r {
            Some(p) => parse_value(s@, i as int, 0) == Some((sview(p.0), p.1 as int)) && i < p.1
                <= s@.len() && scalar_wf(p.0),
            None => parse_value(s@, i as int, 0) is None,
        },
{
    if i >= s.len() {
        return None;
    }
    if s[i] == 0x22 {
        return match parse_string_x(s, i) {
            Some(p) => Some((JScalar::Str(p.0), p.1)),
            None => None,
        };
    }
    if 0x30 <= s[i] && s[i] <= 0x39 {
        let e = tok_end_x(s, i);
        proof {
            assert(tok_end(s@, i as int) == tok_end(s@, i + 1));
            lemma_tok_end_bounds(s@, i + 1);
        }
        match parse_number_x(s, i) {
            Some(p) => {
                if p.1 == e {
                    return Some((JScalar::Int(p.0), p.1));
                }
            },
            None => {},
        }
        let ghost tok = JVal::Num(s@.subrange(i as int, e as int));
        return Some((JScalar::Skip(Ghost(tok)), e));
    }
    let mut lit_true: Vec<u8> = Vec::new();
    lit_true.push(0x74);
    lit_true.push(0x72);
    lit_true.push(0x75);
    lit_true.push(0x65);
    proof {
        assert(lit_true@ =~= seq![0x74u8, 0x72u8, 0x75u8, 0x65u8]);
    }
    if has_lit_at_x(s, i, &lit_true) {
        return Some((JScalar::Bool(true), i + 4));
    }
    let mut lit_false: Vec<u8> = Vec::new();
    lit_false.push(0x66);
    lit_false.push(0x61);
    lit_false.push(0x6c);
    lit_false.push(0x73);
    lit_false.push(0x65);
    proof {
        assert(lit_false@ =~= seq![0x66u8, 0x61u8, 0x6cu8, 0x73u8, 0x65u8]);
    }
    if has_lit_at_x(s, i, &lit_false) {
        return Some((JScalar::Bool(false), i + 5));
    }
    let mut lit_null: Vec<u8> = Vec::new();
    lit_null.push(0x6e);
    lit_null.push(0x75);
    lit_null.push(0x6c);
    lit_null.push(0x6c);
    proof {
        assert(lit_null@ =~= seq![0x6eu8, 0x75u8, 0x6cu8, 0x6cu8]);
    }
    if has_lit_at_x(s, i, &lit_null) {
        return Some((JScalar::Null, i + 4));
    }
    let b = s[i];
    if b == 0x7b || b == 0x5b {
        return match scan_nest_end_x(s, i + 1) {
            Some(e) => {
                let ghost raw = JVal::Opaque(s@.subrange(i as int, e as int));
                Some((JScalar::Skip(Ghost(raw)), e))
            },
            None => None,
        };
    }
    if b == 0x20 || b == 0x09 || b == 0x0a || b == 0x0d || b == 0x2c || b == 0x7d || b == 0x5d
        || b == 0x3a {
        return None;
    }
    let e = tok_end_x(s, i);
    proof {
        assert(tok_end(s@, i as int) == tok_end(s@, i + 1));
        lemma_tok_end_bounds(s@, i + 1);
    }
    let ghost tok = JVal::Num(s@.subrange(i as int, e as int));
    Some((JScalar::Skip(Ghost(tok)), e))
}

/// Read the members of a nested object of scalars, as
/// [`parse_members`] at depth one.
fn parse_flat_members_x(s: &Vec<u8>, i: usize, fuel: usize) -> (r: Option<
    (Vec<(Vec<u8>, JScalar)>, usize),
>)
    requires
        i <= s@.len(),
    ensures
        match r {
            Some(p) => parse_members(s@, i as int, 1, fuel as int) == Some(
                (flatview(p.0), p.1 as int),
            ) && i < p.1 <= s@.len() && flat_wf(p.0),
            None => parse_members(s@, i as int, 1, fuel as int) is None,
        },
    decreases fuel,
{
    if fuel == 0 {
        return None;
    }
    let k = match parse_string_x(s, i) {
        Some(k) => k,
        None => {
            return None;
        },
    };
    let c = skip_ws_x(s, k.1);
    if c >= s.len() || s[c] != 0x3a {
        return None;
    }
    let v = skip_ws_x(s, c + 1);
    let val = match parse_scalar_x(s, v) {
        Some(p) => p,
        None => {
            return None;
        },
    };
    let e = skip_ws_x(s, val.1);
    if e >= s.len() {
        return None;
    }
    if s[e] == 0x7d {
        let mut ms: Vec<(Vec<u8>, JScalar)> = Vec::new();
        let ghost kv = k.0@;
        let ghost vv = sview(val.0);
        ms.push((k.0, val.0));
        proof {
            assert(flatview(ms) =~= seq![(kv, vv)]);
            assert(flat_wf(ms));
        }
        Some((ms, e + 1))
    } else if s[e] == 0x2c {
        let n = skip_ws_x(s, e + 1);
        match parse_flat_members_x(s, n, fuel - 1) {
            Some(rest) => {
                let mut ms: Vec<(Vec<u8>, JScalar)> = Vec::new();
                let ghost kv = k.0@;
                let ghost vv = sview(val.0);
                let ghost restv = flatview(rest.0);
                let ghost restms = rest.0;
                ms.push((k.0, val.0));
                let mut tail = rest.0;
                ms.append(&mut tail);
                proof {
                    assert(flatview(ms) =~= seq![(kv, vv)] + restv);
                    assert forall|q: int| 0 <= q < ms@.len() implies scalar_wf(
                        (#[trigger] ms@[q]).1,
                    ) by {
                        if q > 0 {
                            assert(ms@[q] == restms@[q - 1]);
                        }
                    }
                }
                Some((ms, rest.1))
            },
            None => None,
        }
    } else {
        None
    }
}

/// Read one top-level member value, as [`parse_value`] at depth one.
fn parse_item_x(s: &Vec<u8>, i: usize) -> (r: Option<(JItem, usize)>)
    requires
        i <= s@.len(),
    ensures
        match r {
            Some(p) => parse_value(s@, i as int, 1) == Some((iview(p.0), p.1 as int)) && i < p.1
                <= s@.len() && item_wf(p.0),
            None => parse_value(s@, i as int, 1) is None,
        },
{
    if i < s.len() && s[i] == 0x7b {
        proof {
            assert(!(s@[i as int] == 0x22) && !is_digit(s@[i as int]));
            assert(!has_lit_at(s@, i as int, seq![0x74u8, 0x72u8, 0x75u8, 0x65u8])) by {
                if has_lit_at(s@, i as int, seq![0x74u8, 0x72u8, 0x75u8, 0x65u8]) {
                    assert(s@.subrange(i as int, i + 4)[0] == 0x74);
                }
            }
            assert(!has_lit_at(s@, i as int, seq![0x66u8, 0x61u8, 0x6cu8, 0x73u8, 0x65u8])) by {
                if has_lit_at(s@, i as int, seq![0x66u8, 0x61u8, 0x6cu8, 0x73u8, 0x65u8]) {
                    assert(s@.subrange(i as int, i + 5)[0] == 0x66);
                }
            }
            assert(!has_lit_at(s@, i as int, seq![0x6eu8, 0x75u8, 0x6cu8, 0x6cu8])) by {
                if has_lit_at(s@, i as int, seq![0x6eu8, 0x75u8, 0x6cu8, 0x6cu8]) {
                    assert(s@.subrange(i as int, i + 4)[0] == 0x6e);
                }
            }
        }
        let j = skip_ws_x(s, i + 1);
        if j < s.len() && s[j] == 0x7d {
            let ms: Vec<(Vec<u8>, JScalar)> = Vec::new();
            proof {
                assert(flatview(ms) =~= Seq::<(Seq<u8>, JVal)>::empty());
            }
            Some((JItem::Obj(ms), j + 1))
        } else {
            match parse_flat_members_x(s, j, s.len()) {
                Some(p) => Some((JItem::Obj(p.0), p.1)),
                None => None,
            }
        }
    } else {
        match parse_scalar_x(s, i) {
            Some(p) => {
                proof {
                    if i < s@.len() {
                        assert(parse_value(s@, i as int, 1) == parse_value(s@, i as int, 0));
                    }
                }
                Some((JItem::Scalar(p.0), p.1))
            },
            None => None,
        }
    }
}

/// Read the top-level members, as [`parse_members`] at depth two.
fn parse_top_members_x(s: &Vec<u8>, i: usize, fuel: usize) -> (r: Option<
    (Vec<(Vec<u8>, JItem)>, usize),
>)
    requires
        i <= s@.len(),
    ensures
        match r {
            Some(p) => parse_members(s@, i as int, 2, fuel as int) == Some(
                (topview(p.0), p.1 as int),
            ) && i < p.1 <= s@.len() && top_wf(p.0),
            None => parse_members(s@, i as int, 2, fuel as int) is None,
        },
    decreases fuel,
{
    if fuel == 0 {
        return None;
    }
    let k = match parse_string_x(s, i) {
        Some(k) => k,
        None => {
            return None;
        },
    };
    let c = skip_ws_x(s, k.1);
    if c >= s.len() || s[c] != 0x3a {
        return None;
    }
    let v = skip_ws_x(s, c + 1);
    let val = match parse_item_x(s, v) {
        Some(p) => p,
        None => {
            return None;
        },
    };
    let e = skip_ws_x(s, val.1);
    if e >= s.len() {
        return None;
    }
    if s[e] == 0x7d {
        let mut ms: Vec<(Vec<u8>, JItem)> = Vec::new();
        let ghost kv = k.0@;
        let ghost vv = iview(val.0);
        ms.push((k.0, val.0));
        proof {
            assert(topview(ms) =~= seq![(kv, vv)]);
            assert(top_wf(ms));
        }
        Some((ms, e + 1))
    } else if s[e] == 0x2c {
        let n = skip_ws_x(s, e + 1);
        match parse_top_members_x(s, n, fuel - 1) {
            Some(rest) => {
                let mut ms: Vec<(Vec<u8>, JItem)> = Vec::new();
                let ghost kv = k.0@;
                let ghost vv = iview(val.0);
                let ghost restv = topview(rest.0);
                let ghost restms = rest.0;
                ms.push((k.0, val.0));
                let mut tail = rest.0;
                ms.append(&mut tail);
                proof {
                    assert(topview(ms) =~= seq![(kv, vv)] + restv);
                    assert forall|q: int| 0 <= q < ms@.len() implies item_wf(
                        (#[trigger] ms@[q]).1,
                    ) by {
                        if q > 0 {
                            assert(ms@[q] == restms@[q - 1]);
                        }
                    }
                }
                Some((ms, rest.1))
            },
            None => None,
        }
    } else {
        None
    }
}
/// The first member named `k`.
pub open spec fn assoc(ms: Seq<(Seq<u8>, JVal)>, k: Seq<u8>) -> Option<JVal>
    decreases ms.len(),
{
    if ms.len() == 0 {
        None
    } else if ms[0].0 == k {
        Some(ms[0].1)
    } else {
        assoc(ms.skip(1), k)
    }
}

/// A first match behind non-matches pins the lookup down.
proof fn lemma_assoc_at(ms: Seq<(Seq<u8>, JVal)>, k: Seq<u8>, idx: int)
    requires
        0 <= idx <= ms.len(),
        idx < ms.len() ==> ms[idx].0 == k,
        forall|j: int| 0 <= j < idx ==> (#[trigger] ms[j]).0 != k,
    ensures
        assoc(ms, k) == (if idx < ms.len() {
            Some(ms[idx].1)
        } else {
            None::<JVal>
        }),
    decreases ms.len(),
{
    if ms.len() > 0 {
        if idx == 0 {
        } else {
            assert(forall|j: int| 0 <= j < idx - 1 ==> (#[trigger] ms.skip(1)[j]).0 != k);
            lemma_assoc_at(ms.skip(1), k, idx - 1);
        }
    }
}

/// An optional string member: absent or `null` is none, a string is
/// its content, anything else fails the decode.
pub open spec fn opt_str(o: Option<JVal>) -> Option<Option<Seq<u8>>> {
    match o {
        None => Some(None),
        Some(JVal::Null) => Some(None),
        Some(JVal::Str(b)) => Some(Some(b)),
        Some(_) => None,
    }
}

/// An optional integer member, as [`opt_str`].
pub open spec fn opt_int(o: Option<JVal>) -> Option<Option<u64>> {
    match o {
        None => Some(None),
        Some(JVal::Null) => Some(None),
        Some(JVal::Int(n)) => Some(Some(n)),
        Some(_) => None,
    }
}

/// One decoded event over raw byte strings.
pub ghost enum JChunk {
    Update { stream: Seq<u8> },
    Failure { error: Option<Seq<u8>>, message: Seq<u8> },
    Digest { id: Seq<u8> },
    Pull {
        status: Seq<u8>,
        id: Option<Seq<u8>>,
        progress: Option<Seq<u8>>,
        detail: Option<(Option<u64>, Option<u64>)>,
    },
}

/// The shape an event's members decode to, tried in a fixed order:
/// a build-output line, an error, a digest, a pull status — or
/// nothing, which fails the stream.
pub open spec fn decode_members(ms: Seq<(Seq<u8>, JVal)>) -> Option<JChunk> {
    if assoc(ms, encode_utf8("stream"@)) is Some {
        match assoc(ms, encode_utf8("stream"@)) {
            Some(JVal::Str(b)) => Some(JChunk::Update { stream: b }),
            _ => None,
        }
    } else if assoc(ms, encode_utf8("errorDetail"@)) is Some {
        match assoc(ms, encode_utf8("errorDetail"@)) {
            Some(JVal::Obj(dm)) => match assoc(dm, encode_utf8("message"@)) {
                Some(JVal::Str(m)) => match opt_str(assoc(ms, encode_utf8("error"@))) {
                    Some(e) => Some(JChunk::Failure { error: e, message: m }),
                    None => None,
                },
                _ => None,
            },
            _ => None,
        }
    } else if assoc(ms, encode_utf8("aux"@)) is Some {
        match assoc(ms, encode_utf8("aux"@)) {
            Some(JVal::Obj(am)) => match assoc(am, encode_utf8("ID"@)) {
                Some(JVal::Str(id)) => Some(JChunk::Digest { id }),
                _ => None,
            },
            _ => None,
        }
    } else {
        match assoc(ms, encode_utf8("status"@)) {
            Some(JVal::Str(st)) => {
                let idv = opt_str(assoc(ms, encode_utf8("id"@)));
                let pgv = opt_str(assoc(ms, encode_utf8("progress"@)));
                let dtv = match assoc(ms, encode_utf8("progressDetail"@)) {
                    None => Some(None),
                    Some(JVal::Null) => Some(None),
                    Some(JVal::Obj(dm)) => {
                        let cur = opt_int(assoc(dm, encode_utf8("current"@)));
                        let tot = opt_int(assoc(dm, encode_utf8("total"@)));
                        if cur is Some && tot is Some {
                            Some(Some((cur.unwrap(), tot.unwrap())))
                        } else {
                            None
                        }
                    },
                    Some(_) => None,
                };
                if idv is Some && pgv is Some && dtv is Some {
                    Some(
                        JChunk::Pull {
                            status: st,
                            id: idv.unwrap(),
                            progress: pgv.unwrap(),
                            detail: dtv.unwrap(),
                        },
                    )
                } else {
                    None
                }
            },
            _ => None,
        }
    }
}

/// What one framed JSON value decodes to: the top-level object's
/// members through [`decode_members`], with nothing but whitespace
/// around the value.
pub open spec fn spec_decode(s: Seq<u8>) -> Option<JChunk> {
    let i0 = skip_ws(s, 0);
    match parse_value(s, i0, 2) {
        Some((JVal::Obj(ms), j)) => if 0 <= j <= s.len() && skip_ws(s, j) == s.len() {
            decode_members(ms)
        } else {
            None
        },
        _ => None,
    }
}

/// The raw-byte form of a decoded event.
pub open spec fn chunk_rep(c: ImageBuildChunk) -> JChunk {
    match c {
        ImageBuildChunk::Update { stream } => JChunk::Update { stream: encode_utf8(stream@) },
        ImageBuildChunk::Error { error, error_detail } => JChunk::Failure {
            error: match error {
                Some(e) => Some(encode_utf8(e@)),
                None => None,
            },
            message: encode_utf8(error_detail.message@),
        },
        ImageBuildChunk::Digest { aux } => JChunk::Digest { id: encode_utf8(aux.id@) },
        ImageBuildChunk::PullStatus { status, id, progress, progress_detail } => JChunk::Pull {
            status: encode_utf8(status@),
            id: match id {
                Some(s) => Some(encode_utf8(s@)),
                None => None,
            },
            progress: match progress {
                Some(p) => Some(encode_utf8(p@)),
                None => None,
            },
            detail: match progress_detail {
                Some(d) => Some((d.current, d.total)),
                None => None,
            },
        },
    }
}

/// Whether a byte string is valid UTF-8.
pub open spec fn utf8ish(b: Seq<u8>) -> bool {
    vstd::utf8::valid_utf8(b)
}

/// Whether every text field of a decoded event is valid UTF-8.
pub open spec fn chunk_utf8(j: JChunk) -> bool {
    match j {
        JChunk::Update { stream } => utf8ish(stream),
        JChunk::Failure { error, message } => utf8ish(message) && (match error {
            Some(e) => utf8ish(e),
            None => true,
        }),
        JChunk::Digest { id } => utf8ish(id),
        JChunk::Pull { status, id, progress, detail } => utf8ish(status) && (match id {
            Some(s) => utf8ish(s),
            None => true,
        }) && (match progress {
            Some(p) => utf8ish(p),
            None => true,
        }),
    }
}

/// Look up the first member named `key`.
fn assoc_top<'a>(ms: &'a Vec<(Vec<u8>, JItem)>, key: &Vec<u8>) -> (r: Option<&'a JItem>)
    requires
        top_wf(*ms),
    ensures
        match r {
            Some(v) => assoc(topview(*ms), key@) == Some(iview(*v)) && item_wf(*v),
            None => assoc(topview(*ms), key@) is None,
        },
{
    let n = ms.len();
    let mut i: usize = 0;
    while i < n
        invariant
            n == ms@.len(),
            i <= n,
            top_wf(*ms),
            forall|j: int| 0 <= j < i ==> (#[trigger] topview(*ms)[j]).0 != key@,
        decreases n - i,
    {
        proof {
            assert(topview(*ms)[i as int].0 == ms@[i as int].0@);
        }
        if crate::tar::bytes_eq(&ms[i].0, key) {
            proof {
                lemma_assoc_at(topview(*ms), key@, i as int);
                assert(item_wf((#[trigger] ms@[i as int]).1));
            }
            return Some(&ms[i].1);
        }
        i += 1;
    }
    proof {
        lemma_assoc_at(topview(*ms), key@, n as int);
    }
    None
}

/// Look up the first member named `key` in a nested object.
fn assoc_flat<'a>(ms: &'a Vec<(Vec<u8>, JScalar)>, key: &Vec<u8>) -> (r: Option<&'a JScalar>)
    requires
        flat_wf(*ms),
    ensures
        match r {
            Some(v) => assoc(flatview(*ms), key@) == Some(sview(*v)) && scalar_wf(*v),
            None => assoc(flatview(*ms), key@) is None,
        },
{
    let n = ms.len();
    let mut i: usize = 0;
    while i < n
        invariant
            n == ms@.len(),
            i <= n,
            flat_wf(*ms),
            forall|j: int| 0 <= j < i ==> (#[trigger] flatview(*ms)[j]).0 != key@,
        decreases n - i,
    {
        proof {
            assert(flatview(*ms)[i as int].0 == ms@[i as int].0@);
        }
        if crate::tar::bytes_eq(&ms[i].0, key) {
            proof {
                lemma_assoc_at(flatview(*ms), key@, i as int);
                assert(scalar_wf((#[trigger] ms@[i as int]).1));
            }
            return Some(&ms[i].1);
        }
        i += 1;
    }
    proof {
        lemma_assoc_at(flatview(*ms), key@, n as int);
    }
    None
}

/// Decode a string field into a `String`, or report the stream
/// undecodable.
fn field_string(b: &Vec<u8>) -> (r: Result<String, Error>)
    ensures
        match r {
            Ok(s) => encode_utf8(s@) == b@,
            Err(e) => e == Error::Decode && !utf8ish(b@),
        },
{
    match crate::json::string_from_utf8(crate::tar::clone_bytes(b)) {
        Some(s) => Ok(s),
        None => Err(Error::Decode),
    }
}

/// An optional string member, as [`opt_str`], decoded to a `String`.
fn field_opt_string(v: Option<&JItem>) -> (r: Result<Option<String>, Error>)
    requires
        match v {
            Some(it) => item_wf(*it),
            None => true,
        },
    ensures
        match r {
            Ok(s) => opt_str(match v {
                Some(it) => Some(iview(*it)),
                None => None,
            }) == Some(match s {
                Some(x) => Some(encode_utf8(x@)),
                None => None::<Seq<u8>>,
            }),
            Err(e) => e == Error::Decode && (match opt_str(match v {
                Some(it) => Some(iview(*it)),
                None => None,
            }) {
                Some(Some(b)) => !utf8ish(b),
                Some(None) => false,
                None => true,
            }),
        },
{
    match v {
        None => Ok(None),
        Some(JItem::Scalar(JScalar::Null)) => Ok(None),
        Some(JItem::Scalar(JScalar::Str(b))) => match field_string(b) {
            Ok(s) => Ok(Some(s)),
            Err(e) => Err(e),
        },
        Some(_) => Err(Error::Decode),
    }
}

/// An optional integer member of a nested object, as [`opt_int`].
fn field_opt_int(v: Option<&JScalar>) -> (r: Result<Option<u64>, Error>)
    requires
        match v {
            Some(sc) => scalar_wf(*sc),
            None => true,
        },
    ensures
        match r {
            Ok(n) => opt_int(match v {
                Some(sc) => Some(sview(*sc)),
                None => None,
            }) == Some(n),
            Err(e) => e == Error::Decode && opt_int(match v {
                Some(sc) => Some(sview(*sc)),
                None => None,
            }) is None,
        },
{
    match v {
        None => Ok(None),
        Some(JScalar::Null) => Ok(None),
        Some(JScalar::Int(n)) => Ok(Some(*n)),
        Some(_) => Err(Error::Decode),
    }
}

/// Decode the top-level members into an event, as [`decode_members`].
fn decode_members_x(ms: &Vec<(Vec<u8>, JItem)>) -> (r: Result<ImageBuildChunk, Error>)
    requires
        top_wf(*ms),
    ensures
        match r {
            Ok(c) => decode_members(topview(*ms)) == Some(chunk_rep(c)),
            Err(e) => e == Error::Decode && (match decode_members(topview(*ms)) {
                Some(j) => !chunk_utf8(j),
                None => true,
            }),
        },
{
    let ghost mv = topview(*ms);
    let k_stream = "stream".as_bytes_vec();
    if let Some(v) = assoc_top(ms, &k_stream) {
        return match v {
            JItem::Scalar(JScalar::Str(b)) => match field_string(b) {
                Ok(s) => Ok(ImageBuildChunk::Update { stream: s }),
                Err(e) => Err(e),
            },
            _ => Err(Error::Decode),
        };
    }
    let k_edetail = "errorDetail".as_bytes_vec();
    if let Some(v) = assoc_top(ms, &k_edetail) {
        return match v {
            JItem::Obj(dm) => {
                let k_message = "message".as_bytes_vec();
                match assoc_flat(dm, &k_message) {
                    Some(JScalar::Str(m)) => {
                        let msg = match field_string(m) {
                            Ok(s) => s,
                            Err(e) => {
                                return Err(e);
                            },
                        };
                        let k_error = "error".as_bytes_vec();
                        let err = match field_opt_string(assoc_top(ms, &k_error)) {
                            Ok(o) => o,
                            Err(e) => {
                                return Err(e);
                            },
                        };
                        Ok(ImageBuildChunk::Error {
                            error: err,
                            error_detail: ErrorDetail { message: msg },
                        })
                    },
                    _ => Err(Error::Decode),
                }
            },
            _ => Err(Error::Decode),
        };
    }
    let k_aux = "aux".as_bytes_vec();
    if let Some(v) = assoc_top(ms, &k_aux) {
        return match v {
            JItem::Obj(am) => {
                let k_id = "ID".as_bytes_vec();
                match assoc_flat(am, &k_id) {
                    Some(JScalar::Str(id)) => match field_string(id) {
                        Ok(s) => Ok(ImageBuildChunk::Digest { aux: Aux { id: s } }),
                        Err(e) => Err(e),
                    },
                    _ => Err(Error::Decode),
                }
            },
            _ => Err(Error::Decode),
        };
    }
    let k_status = "status".as_bytes_vec();
    match assoc_top(ms, &k_status) {
        Some(JItem::Scalar(JScalar::Str(st))) => {
            let status = match field_string(st) {
                Ok(s) => s,
                Err(e) => {
                    return Err(e);
                },
            };
            let k_id2 = "id".as_bytes_vec();
            let id = match field_opt_string(assoc_top(ms, &k_id2)) {
                Ok(o) => o,
                Err(e) => {
                    return Err(e);
                },
            };
            let k_progress = "progress".as_bytes_vec();
            let progress = match field_opt_string(assoc_top(ms, &k_progress)) {
                Ok(o) => o,
                Err(e) => {
                    return Err(e);
                },
            };
            let k_detail = "progressDetail".as_bytes_vec();
            let detail: Option<ProgressDetail> = match assoc_top(ms, &k_detail) {
                None => None,
                Some(JItem::Scalar(JScalar::Null)) => None,
                Some(JItem::Obj(dm)) => {
                    let k_current = "current".as_bytes_vec();
                    let cur = match field_opt_int(assoc_flat(dm, &k_current)) {
                        Ok(o) => o,
                        Err(e) => {
                            return Err(e);
                        },
                    };
                    let k_total = "total".as_bytes_vec();
                    let tot = match field_opt_int(assoc_flat(dm, &k_total)) {
                        Ok(o) => o,
                        Err(e) => {
                            return Err(e);
                        },
                    };
                    Some(ProgressDetail { current: cur, total: tot })
                },
                Some(_) => {
                    return Err(Error::Decode);
                },
            };
            Ok(ImageBuildChunk::PullStatus { status, id, progress, progress_detail: detail })
        },
        _ => Err(Error::Decode),
    }
}

/// Decode one framed JSON value into an event.
///
/// `Ok` is exactly what [`spec_decode`] assigns to the bytes; the
/// stream dies with [`Error::Decode`] when the bytes decode to nothing
/// — or, never on daemon output, when a text field is not UTF-8.
pub fn decode_frame(frame: &Vec<u8>) -> (r: Result<ImageBuildChunk, Error>)
    ensures
        match r {
            Ok(c) => spec_decode(frame@) == Some(chunk_rep(c)),
            Err(e) => e == Error::Decode && (match spec_decode(frame@) {
                Some(j) => !chunk_utf8(j),
                None => true,
            }),
        },
{
    let i0 = skip_ws_x(frame, 0);
    if !(i0 < frame.len() && frame[i0] == 0x7b) {
        proof {
            match parse_value(frame@, i0 as int, 2) {
                Some(p) => {
                    assert(!(p.0 is Obj));
                },
                None => {},
            }
        }
        return Err(Error::Decode);
    }
    proof {
        assert(!(frame@[i0 as int] == 0x22) && !is_digit(frame@[i0 as int]));
        assert(!has_lit_at(frame@, i0 as int, seq![0x74u8, 0x72u8, 0x75u8, 0x65u8])) by {
            if has_lit_at(frame@, i0 as int, seq![0x74u8, 0x72u8, 0x75u8, 0x65u8]) {
                assert(frame@.subrange(i0 as int, i0 + 4)[0] == 0x74);
            }
        }
        assert(!has_lit_at(frame@, i0 as int, seq![0x66u8, 0x61u8, 0x6cu8, 0x73u8, 0x65u8])) by {
            if has_lit_at(frame@, i0 as int, seq![0x66u8, 0x61u8, 0x6cu8, 0x73u8, 0x65u8]) {
                assert(frame@.subrange(i0 as int, i0 + 5)[0] == 0x66);
            }
        }
        assert(!has_lit_at(frame@, i0 as int, seq![0x6eu8, 0x75u8, 0x6cu8, 0x6cu8])) by {
            if has_lit_at(frame@, i0 as int, seq![0x6eu8, 0x75u8, 0x6cu8, 0x6cu8]) {
                assert(frame@.subrange(i0 as int, i0 + 4)[0] == 0x6e);
            }
        }
    }
    let j0 = skip_ws_x(frame, i0 + 1);
    let parsed = if j0 < frame.len() && frame[j0] == 0x7d {
        let ms: Vec<(Vec<u8>, JItem)> = Vec::new();
        proof {
            assert(topview(ms) =~= Seq::<(Seq<u8>, JVal)>::empty());
            assert(top_wf(ms));
        }
        (ms, j0 + 1)
    } else {
        match parse_top_members_x(frame, j0, frame.len()) {
            Some(p) => p,
            None => {
                return Err(Error::Decode);
            },
        }
    };
    let (ms, end) = parsed;
    proof {
        assert(parse_value(frame@, i0 as int, 2) == Some(
            (JVal::Obj(topview(ms)), end as int),
        ));
    }
    let e2 = skip_ws_x(frame, end);
    if e2 != frame.len() {
        return Err(Error::Decode);
    }
    decode_members_x(&ms)
}

/// The value list at `k` replaced, or the pair appended if `k` is new.
pub open spec fn totals_insert(
    s: Seq<(Seq<char>, u64)>,
    k: Seq<char>,
    v: u64,
) -> Seq<(Seq<char>, u64)> {
    if exists|i: int| 0 <= i < s.len() && s[i].0 == k {
        s.update(choose|i: int| 0 <= i < s.len() && s[i].0 == k, (k, v))
    } else {
        s.push((k, v))
    }
}

/// Whether `s` holds pairwise-distinct layer ids.
pub open spec fn unique_ids(s: Seq<(Seq<char>, u64)>) -> bool {
    forall|i: int, j: int| 0 <= i < j < s.len() ==> s[i].0 != s[j].0
}

/// The per-layer byte totals a sequence of events reports: one entry
/// per distinct layer id, in order of first appearance, holding the
/// layer's most recently reported total.
pub open spec fn spec_layer_totals(cs: Seq<ImageBuildChunk>) -> Seq<(Seq<char>, u64)>
    decreases cs.len(),
{
    if cs.len() == 0 {
        Seq::empty()
    } else {
        let rest = spec_layer_totals(cs.drop_last());
        match cs.last() {
            ImageBuildChunk::PullStatus {
                id: Some(id),
                progress_detail: Some(ProgressDetail { total: Some(total), .. }),
                ..
            } => totals_insert(rest, id@, total),
            _ => rest,
        }
    }
}

/// Fold a stream of events into per-layer byte totals, as
/// [`spec_layer_totals`]: one entry per distinct layer id, in order of
/// first appearance, with that layer's final reported total.
pub fn layer_totals(chunks: &Vec<ImageBuildChunk>) -> (r: Vec<(String, u64)>)
    ensures
        r@.map_values(|p: (String, u64)| (p.0@, p.1)) == spec_layer_totals(chunks@),
        unique_ids(r@.map_values(|p: (String, u64)| (p.0@, p.1))),
{
    let mut out: Vec<(String, u64)> = Vec::new();
    let n = chunks.len();
    let mut i: usize = 0;
    proof {
        assert(out@.map_values(|p: (String, u64)| (p.0@, p.1)) =~= spec_layer_totals(
            chunks@.take(0int),
        ));
    }
    while i < n
        invariant
            n == chunks@.len(),
            i <= n,
            out@.map_values(|p: (String, u64)| (p.0@, p.1)) == spec_layer_totals(
                chunks@.take(i as int),
            ),
            unique_ids(out@.map_values(|p: (String, u64)| (p.0@, p.1))),
        decreases n - i,
    {
        proof {
            assert(chunks@.take(i + 1) =~= chunks@.take(i as int).push(chunks@[i as int]));
            assert(chunks@.take(i + 1).drop_last() =~= chunks@.take(i as int));
            assert(chunks@.take(i + 1).last() == chunks@[i as int]);
        }
        match &chunks[i] {
            ImageBuildChunk::PullStatus {
                status: _,
                id: Some(id),
                progress: _,
                progress_detail: Some(ProgressDetail { current: _, total: Some(total) }),
            } => {
                let ghost before = out@.map_values(|p: (String, u64)| (p.0@, p.1));
                let m = out.len();
                let mut k: usize = 0;
                let mut pos_found = false;
                let mut pos: usize = 0;
                while k < m
                    invariant
                        m == out@.len(),
                        k <= m,
                        before == out@.map_values(|p: (String, u64)| (p.0@, p.1)),
                        unique_ids(before),
                        !pos_found ==> forall|j: int| 0 <= j < k ==> before[j].0 != id@,
                        pos_found ==> pos < m && before[pos as int].0 == id@ && (forall|j: int|
                            0 <= j < pos ==> before[j].0 != id@),
                    decreases m - k,
                {
                    if !pos_found && out[k].0 == *id {
                        assert(before[k as int].0 == id@);
                        pos_found = true;
                        pos = k;
                    }
                    k += 1;
                }
                if pos_found {
                    out.set(pos, (id.clone(), *total));
                    proof {
                        let ghost w = choose|q: int| 0 <= q < before.len() && before[q].0 == id@;
                        assert(before[w].0 == id@ && before[pos as int].0 == id@);
                        assert(w == pos as int);
                        assert(out@.map_values(|p: (String, u64)| (p.0@, p.1)) =~= totals_insert(
                            before,
                            id@,
                            *total,
                        ));
                    }
                } else {
                    proof {
                        assert(forall|q: int| 0 <= q < before.len() ==> before[q].0 != id@);
                    }
                    out.push((id.clone(), *total));
                    proof {
                        assert(out@.map_values(|p: (String, u64)| (p.0@, p.1)) =~= totals_insert(
                            before,
                            id@,
                            *total,
                        ));
                    }
                }
            },
            _ => {},
        }
        i += 1;
    }
    proof {
        assert(chunks@.take(n as int) =~= chunks@);
    }
    out
}

} // verus!
