//! Percent-encoding of the values in a URL.

use vstd::prelude::*;
use vstd::utf8::{decode_utf8, encode_utf8, valid_utf8};

verus! {

/// The bytes that stand for themselves in a URL: ASCII letters, digits, `-`,
/// `.`, `_` and `~`.
pub open spec fn is_unreserved_byte(b: u8) -> bool {
    ||| 0x30 <= b <= 0x39
    ||| 0x41 <= b <= 0x5a
    ||| 0x61 <= b <= 0x7a
    ||| b == 0x2d
    ||| b == 0x2e
    ||| b == 0x5f
    ||| b == 0x7e
}

/// The characters that stand for themselves in a URL.
pub open spec fn is_unreserved(c: char) -> bool {
    (c as int) < 128 && is_unreserved_byte(c as u8)
}

/// How one byte stands in a URL.
pub open spec fn percent_escape(b: u8) -> Seq<char> {
    if is_unreserved_byte(b) {
        seq![b as char]
    } else {
        seq!['%', "0123456789ABCDEF"@[b as int / 16], "0123456789ABCDEF"@[b as int % 16]]
    }
}

/// `percent_escape` as a value.
pub open spec fn percent_escaper() -> spec_fn(u8) -> Seq<char> {
    |b: u8| percent_escape(b)
}

/// How a text stands in a URL: byte by byte of its UTF-8 encoding.
pub open spec fn url_encoded(s: Seq<char>) -> Seq<char> {
    encode_utf8(s).flat_map(percent_escaper())
}

/// The number that an upper-case hexadecimal digit stands for.
pub open spec fn hex_value(c: char) -> int {
    "0123456789ABCDEF"@.index_of(c)
}

/// Whether a character is an upper-case hexadecimal digit.
pub open spec fn is_hex(c: char) -> bool {
    "0123456789ABCDEF"@.contains(c)
}

/// Reads the bytes that stand in a URL, if these characters stand for any.
pub open spec fn percent_decoded(text: Seq<char>) -> Option<Seq<u8>>
    decreases text.len(),
{
    if text.len() == 0 {
        Some(seq![])
    } else if is_unreserved(text[0]) {
        match percent_decoded(text.skip(1)) {
            Some(rest) => Some(seq![text[0] as u8] + rest),
            None => None,
        }
    } else if text.len() >= 3 && text[0] == '%' && is_hex(text[1]) && is_hex(text[2]) {
        match percent_decoded(text.skip(3)) {
            Some(rest) => Some(
                seq![(hex_value(text[1]) * 16 + hex_value(text[2])) as u8] + rest,
            ),
            None => None,
        }
    } else {
        None
    }
}

/// Reads the text that stands in a URL, if these characters stand for one.
pub open spec fn url_decoded(text: Seq<char>) -> Option<Seq<char>> {
    match percent_decoded(text) {
        Some(bytes) => if valid_utf8(bytes) {
            Some(decode_utf8(bytes))
        } else {
            None
        },
        None => None,
    }
}

/// The part of a text before the first `c`: all of it, where there is none.
pub open spec fn up_to(text: Seq<char>, c: char) -> Seq<char>
    decreases text.len(),
{
    if text.len() == 0 || text[0] == c {
        seq![]
    } else {
        seq![text[0]] + up_to(text.skip(1), c)
    }
}

/// The part of a text behind the first `c`: nothing, where there is none.
pub open spec fn behind(text: Seq<char>, c: char) -> Seq<char>
    decreases text.len(),
{
    if text.len() == 0 {
        seq![]
    } else if text[0] == c {
        text.skip(1)
    } else {
        behind(text.skip(1), c)
    }
}

/// Reads the parameters of a query, which stand between `&`: the name of each, before
/// its `=`, and its decoded value.
pub open spec fn parameters(query: Seq<char>) -> Seq<(Seq<char>, Option<Seq<char>>)>
    decreases query.len(),
{
    let rest = behind(query, '&');
    let first = up_to(query, '&');
    if query.len() == 0 || rest.len() >= query.len() {
        seq![]
    } else {
        seq![(up_to(first, '='), url_decoded(behind(first, '=')))] + parameters(rest)
    }
}

/// Encodes a text for a URL.
///
/// Calls `urlencoding::encode`. Trusted: every byte of the UTF-8 encoding that
/// is an ASCII letter, a digit, `-`, `.`, `_` or `~` is kept, and every other
/// byte becomes `%` and two upper-case hexadecimal digits.
#[verifier::external_body]
pub(crate) fn url_encode(s: &str) -> (encoded: String)
    ensures
        encoded@ == url_encoded(s@),
{
    urlencoding::encode(s).into_owned()
}

} // verus!
