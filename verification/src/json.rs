//! Writing JSON documents as bytes.
//!
//! The daemon takes two small JSON documents from this layer: the
//! registry-auth object carried in a request header, and the `filters`
//! query parameter. Both are built here, byte by byte, against a spec
//! that fixes every byte of the output.

use vstd::prelude::*;
use vstd::string::StringSliceAdditionalSpecFns;
use vstd::utf8::encode_utf8;

verus! {

/// The lowercase hex digit for `d` in 0..16.
pub open spec fn hex_digit(d: int) -> u8 {
    if d < 10 {
        (0x30 + d) as u8
    } else {
        (0x57 + d) as u8
    }
}

/// How one byte of a string appears inside a JSON string literal:
/// quote and backslash get a backslash, backspace, tab, newline, form
/// feed and carriage return get their short escapes, the remaining
/// control bytes become `\u00xx`, and everything else (multi-byte
/// UTF-8 included) passes through.
pub open spec fn escape_byte(b: u8) -> Seq<u8> {
    if b == 0x22 {
        seq![0x5cu8, 0x22u8]
    } else if b == 0x5c {
        seq![0x5cu8, 0x5cu8]
    } else if b == 0x08 {
        seq![0x5cu8, 0x62u8]
    } else if b == 0x09 {
        seq![0x5cu8, 0x74u8]
    } else if b == 0x0a {
        seq![0x5cu8, 0x6eu8]
    } else if b == 0x0c {
        seq![0x5cu8, 0x66u8]
    } else if b == 0x0d {
        seq![0x5cu8, 0x72u8]
    } else if b < 0x20 {
        seq![0x5cu8, 0x75u8, 0x30u8, 0x30u8, hex_digit(b as int / 16), hex_digit(b as int % 16)]
    } else {
        seq![b]
    }
}

/// The escaped form of a whole string body.
pub open spec fn json_escape(s: Seq<u8>) -> Seq<u8>
    decreases s.len(),
{
    if s.len() == 0 {
        Seq::empty()
    } else {
        escape_byte(s[0]) + json_escape(s.skip(1))
    }
}

/// A JSON string literal: quote, escaped body, quote.
pub open spec fn json_string(s: Seq<u8>) -> Seq<u8> {
    seq![0x22u8] + json_escape(s) + seq![0x22u8]
}

/// Escaping one more byte extends the escaped output.
pub proof fn lemma_json_escape_snoc(s: Seq<u8>, b: u8)
    ensures
        json_escape(s.push(b)) == json_escape(s) + escape_byte(b),
    decreases s.len(),
{
    if s.len() == 0 {
        assert(s.push(b)[0] == b);
        assert(s.push(b).skip(1) =~= Seq::<u8>::empty());
        assert(json_escape(Seq::<u8>::empty()) == Seq::<u8>::empty());
        assert(escape_byte(b) + Seq::<u8>::empty() =~= escape_byte(b));
        assert(json_escape(s) + escape_byte(b) =~= escape_byte(b));
    } else {
        assert(s.push(b)[0] == s[0]);
        assert(s.push(b).skip(1) =~= s.skip(1).push(b));
        lemma_json_escape_snoc(s.skip(1), b);
        assert(escape_byte(s[0]) + (json_escape(s.skip(1)) + escape_byte(b)) =~= (escape_byte(s[0])
            + json_escape(s.skip(1))) + escape_byte(b));
    }
}

/// Append the JSON string literal for `s` to `out`.
pub fn push_json_string(out: &mut Vec<u8>, s: &str)
    ensures
        final(out)@ == old(out)@ + json_string(s.spec_bytes()),
{
    out.push(0x22);
    let bytes: &[u8] = s.as_bytes();
    let n = bytes.len();
    let mut i: usize = 0;
    while i < n
        invariant
            n == bytes@.len(),
            bytes@ == s.spec_bytes(),
            i <= n,
            out@ == old(out)@ + seq![0x22u8] + json_escape(bytes@.take(i as int)),
        decreases n - i,
    {
        let b = bytes[i];
        if b == 0x22 {
            out.push(0x5c);
            out.push(0x22);
        } else if b == 0x5c {
            out.push(0x5c);
            out.push(0x5c);
        } else if b == 0x08 {
            out.push(0x5c);
            out.push(0x62);
        } else if b == 0x09 {
            out.push(0x5c);
            out.push(0x74);
        } else if b == 0x0a {
            out.push(0x5c);
            out.push(0x6e);
        } else if b == 0x0c {
            out.push(0x5c);
            out.push(0x66);
        } else if b == 0x0d {
            out.push(0x5c);
            out.push(0x72);
        } else if b < 0x20 {
            out.push(0x5c);
            out.push(0x75);
            out.push(0x30);
            out.push(0x30);
            let hi = b / 16;
            let lo = b % 16;
            out.push(if hi < 10 { 0x30 + hi } else { 0x57 + hi });
            out.push(if lo < 10 { 0x30 + lo } else { 0x57 + lo });
        } else {
            out.push(b);
        }
        proof {
            lemma_json_escape_snoc(bytes@.take(i as int), b);
            assert(bytes@.take(i + 1) =~= bytes@.take(i as int).push(b));
            assert(out@ =~= old(out)@ + seq![0x22u8] + json_escape(bytes@.take(i + 1)));
        }
        i += 1;
    }
    out.push(0x22);
    proof {
        assert(bytes@.take(n as int) =~= bytes@);
        assert(old(out)@ + seq![0x22u8] + json_escape(bytes@) + seq![0x22u8] =~= old(out)@
            + json_string(s.spec_bytes()));
    }
}

/// `items` joined with commas.
pub open spec fn join_comma(items: Seq<Seq<u8>>) -> Seq<u8>
    decreases items.len(),
{
    if items.len() == 0 {
        Seq::empty()
    } else if items.len() == 1 {
        items[0]
    } else {
        items[0] + seq![0x2cu8] + join_comma(items.skip(1))
    }
}

/// Joining one more item appends a comma first, unless it is the first.
pub proof fn lemma_join_comma_snoc(items: Seq<Seq<u8>>, x: Seq<u8>)
    ensures
        join_comma(items.push(x)) == if items.len() == 0 {
            x
        } else {
            join_comma(items) + seq![0x2cu8] + x
        },
    decreases items.len(),
{
    if items.len() == 0 {
        assert(items.push(x).len() == 1);
        assert(items.push(x)[0] == x);
    } else {
        assert(items.push(x)[0] == items[0]);
        assert(items.push(x).skip(1) =~= items.skip(1).push(x));
        lemma_join_comma_snoc(items.skip(1), x);
        if items.len() == 1 {
            assert(items.push(x).len() == 2);
            assert(join_comma(items.push(x)) == items[0] + seq![0x2cu8] + x);
            assert(join_comma(items) == items[0]);
        } else {
            assert(items[0] + seq![0x2cu8] + (join_comma(items.skip(1)) + seq![0x2cu8] + x) =~= (
            items[0] + seq![0x2cu8] + join_comma(items.skip(1))) + seq![0x2cu8] + x);
        }
    }
}

/// The JSON array of string literals for `items`.
pub open spec fn json_string_array(items: Seq<Seq<u8>>) -> Seq<u8> {
    seq![0x5bu8] + join_comma(items.map_values(|s: Seq<u8>| json_string(s))) + seq![0x5du8]
}

/// The byte views of a vector of strings.
pub open spec fn strings_bytes(items: Vec<String>) -> Seq<Seq<u8>> {
    items@.map_values(|s: String| encode_utf8(s@))
}

/// Append the JSON array of string literals for `items` to `out`.
pub fn push_json_string_array(out: &mut Vec<u8>, items: &Vec<String>)
    ensures
        final(out)@ == old(out)@ + json_string_array(strings_bytes(*items)),
{
    out.push(0x5b);
    let n = items.len();
    let mut i: usize = 0;
    while i < n
        invariant
            n == items@.len(),
            i <= n,
            out@ == old(out)@ + seq![0x5bu8] + join_comma(
                strings_bytes(*items).take(i as int).map_values(|s: Seq<u8>| json_string(s)),
            ),
        decreases n - i,
    {
        let ghost lits = strings_bytes(*items).take(i as int).map_values(
            |s: Seq<u8>| json_string(s),
        );
        if i > 0 {
            out.push(0x2c);
        }
        push_json_string(out, items[i].as_str());
        proof {
            let lits1 = strings_bytes(*items).take(i + 1).map_values(|s: Seq<u8>| json_string(s));
            assert(strings_bytes(*items).take(i + 1) =~= strings_bytes(*items).take(i as int).push(
                encode_utf8(items@[i as int]@),
            ));
            assert(lits1 =~= lits.push(json_string(encode_utf8(items@[i as int]@))));
            lemma_join_comma_snoc(lits, json_string(encode_utf8(items@[i as int]@)));
            if i == 0 {
                assert(lits.len() == 0);
                assert(out@ =~= old(out)@ + seq![0x5bu8] + join_comma(lits1));
            } else {
                assert(out@ =~= old(out)@ + seq![0x5bu8] + join_comma(lits1));
            }
        }
        i += 1;
    }
    out.push(0x5d);
    proof {
        assert(strings_bytes(*items).take(n as int) =~= strings_bytes(*items));
        assert(out@ =~= old(out)@ + json_string_array(strings_bytes(*items)));
    }
}

/// The JSON object mapping each key to its array of string values, in
/// pair order.
pub open spec fn filters_json(pairs: Seq<(Seq<u8>, Seq<Seq<u8>>)>) -> Seq<u8> {
    seq![0x7bu8] + join_comma(
        pairs.map_values(
            |p: (Seq<u8>, Seq<Seq<u8>>)| json_string(p.0) + seq![0x3au8] + json_string_array(p.1),
        ),
    ) + seq![0x7du8]
}

/// Decoding bytes back into a string.
///
/// Relies on alloc::string::String::from_utf8: it succeeds exactly on
/// valid UTF-8 input and then returns the string those bytes spell.
#[verifier::external_body]
pub fn string_from_utf8(b: Vec<u8>) -> (r: Option<String>)
    ensures
        match r {
            Some(s) => encode_utf8(s@) == b@,
            None => !vstd::utf8::valid_utf8(b@),
        },
{
    String::from_utf8(b).ok()
}

} // verus!
