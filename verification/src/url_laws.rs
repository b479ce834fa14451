//! What holds of the values in a URL.

use crate::text::lemma_flat_map_first;
use crate::url::{
    behind, hex_value, is_hex, is_unreserved, is_unreserved_byte, parameters, percent_decoded,
    percent_escape, percent_escaper, up_to, url_decoded, url_encoded,
};
use vstd::prelude::*;
use vstd::utf8::{
    encode_utf8, encode_utf8_decode_utf8, encode_utf8_valid_utf8, is_ascii_chars,
    is_ascii_chars_encode_utf8,
};

verus! {

/// The characters that an encoded text is made of.
pub open spec fn is_plain(c: char) -> bool {
    is_unreserved(c) || c == '%'
}

/// An escaped byte is plain.
proof fn lemma_escape_is_plain(b: u8)
    ensures
        forall|i: int|
            0 <= i < percent_escape(b).len() ==> is_plain(#[trigger] percent_escape(b)[i]),
{
    reveal_strlit("0123456789ABCDEF");
}

/// Escaped bytes are plain.
proof fn lemma_bytes_are_plain(bytes: Seq<u8>)
    ensures
        forall|i: int|
            0 <= i < bytes.flat_map(percent_escaper()).len() ==> is_plain(
                #[trigger] bytes.flat_map(percent_escaper())[i],
            ),
    decreases bytes.len(),
{
    if bytes.len() > 0 {
        lemma_flat_map_first(bytes, percent_escaper());
        lemma_escape_is_plain(bytes[0]);
        lemma_bytes_are_plain(bytes.drop_first());
    }
}

/// An encoded text holds nothing but unreserved characters and percent signs,
/// whatever the text: no `&`, `=`, `?` or `#` that could be taken for a part of
/// the URL around it.
pub proof fn encoded_text_is_plain(s: Seq<char>)
    ensures
        forall|i: int| 0 <= i < url_encoded(s).len() ==> is_plain(#[trigger] url_encoded(s)[i]),
{
    lemma_bytes_are_plain(encode_utf8(s));
}

/// Unreserved bytes are kept.
proof fn lemma_unreserved_bytes_are_kept(bytes: Seq<u8>)
    requires
        forall|i: int| 0 <= i < bytes.len() ==> is_unreserved_byte(#[trigger] bytes[i]),
    ensures
        bytes.flat_map(percent_escaper()) == bytes.map_values(|b: u8| b as char),
    decreases bytes.len(),
{
    if bytes.len() > 0 {
        lemma_flat_map_first(bytes, percent_escaper());
        lemma_unreserved_bytes_are_kept(bytes.drop_first());
    }
    assert(bytes.flat_map(percent_escaper()) =~= bytes.map_values(|b: u8| b as char));
}

/// Unreserved characters are ASCII.
proof fn lemma_unreserved_is_ascii(c: char)
    requires
        is_unreserved(c),
    ensures
        '\0' <= c <= '\u{7f}',
{
}

/// A text of unreserved characters is its own encoding.
pub proof fn unreserved_text_is_kept(s: Seq<char>)
    requires
        forall|i: int| 0 <= i < s.len() ==> is_unreserved(#[trigger] s[i]),
    ensures
        url_encoded(s) == s,
{
    assert(is_ascii_chars(s)) by {
        assert forall|i: int| 0 <= i < s.len() implies '\0' <= #[trigger] s[i] <= '\u{7f}' by {
            assert(is_unreserved(s[i]));
            lemma_unreserved_is_ascii(s[i]);
        }
    }
    is_ascii_chars_encode_utf8(s);
    let bytes = encode_utf8(s);
    assert forall|i: int| 0 <= i < bytes.len() implies is_unreserved_byte(#[trigger] bytes[i]) by {
        assert(is_unreserved(s[i]));
    }
    lemma_unreserved_bytes_are_kept(bytes);
    assert forall|i: int| 0 <= i < s.len() implies (#[trigger] bytes[i]) as char == s[i] by {
        assert(is_unreserved(s[i]));
    }
    assert(url_encoded(s) =~= s);
}

/// The hexadecimal digits stand for their places.
proof fn lemma_hex_digit(i: int)
    requires
        0 <= i < 16,
    ensures
        is_hex("0123456789ABCDEF"@[i]),
        hex_value("0123456789ABCDEF"@[i]) == i,
{
    reveal_strlit("0123456789ABCDEF");
    let digits = "0123456789ABCDEF"@;
    assert(digits.contains(digits[i]));
    let at = hex_value(digits[i]);
    assert(0 <= at < 16 && digits[at] == digits[i]);
}

/// An escaped byte reads back, whatever follows it.
proof fn lemma_escape_reads_back(b: u8, rest: Seq<char>)
    ensures
        percent_decoded(percent_escape(b) + rest) == match percent_decoded(rest) {
            Some(bytes) => Some(seq![b] + bytes),
            None => None,
        },
{
    let text = percent_escape(b) + rest;
    if is_unreserved_byte(b) {
        assert(text.skip(1) =~= rest);
        assert(text[0] == b as char);
        assert((b as char) as u8 == b);
    } else {
        lemma_hex_digit(b as int / 16);
        lemma_hex_digit(b as int % 16);
        assert(text.skip(3) =~= rest);
        assert(text[0] == '%');
        assert(text[1] == "0123456789ABCDEF"@[b as int / 16]);
        assert(text[2] == "0123456789ABCDEF"@[b as int % 16]);
    }
}

/// Escaped bytes read back.
proof fn lemma_bytes_read_back(bytes: Seq<u8>)
    ensures
        percent_decoded(bytes.flat_map(percent_escaper())) == Some(bytes),
    decreases bytes.len(),
{
    if bytes.len() > 0 {
        lemma_flat_map_first(bytes, percent_escaper());
        lemma_bytes_read_back(bytes.drop_first());
        lemma_escape_reads_back(bytes[0], bytes.drop_first().flat_map(percent_escaper()));
        assert(seq![bytes[0]] + bytes.drop_first() =~= bytes);
    } else {
        assert(bytes =~= seq![]);
    }
}

/// An encoded text reads back: whoever decodes the value in a URL has the text
/// that was encoded.
pub proof fn encoded_text_reads_back(s: Seq<char>)
    ensures
        url_decoded(url_encoded(s)) == Some(s),
{
    lemma_bytes_read_back(encode_utf8(s));
    encode_utf8_valid_utf8(s);
    encode_utf8_decode_utf8(s);
}

/// Encoding loses nothing: different texts are encoded differently.
pub proof fn encoding_is_unambiguous(s: Seq<char>, t: Seq<char>)
    requires
        url_encoded(s) == url_encoded(t),
    ensures
        s == t,
{
    encoded_text_reads_back(s);
    encoded_text_reads_back(t);
}

/// A text is cut at the first of a character.
pub proof fn texts_are_cut_at_the_first(a: Seq<char>, c: char, b: Seq<char>)
    requires
        forall|i: int| 0 <= i < a.len() ==> #[trigger] a[i] != c,
    ensures
        up_to(a + (seq![c] + b), c) == a,
        behind(a + (seq![c] + b), c) == b,
        up_to(a, c) == a,
        behind(a, c) == Seq::<char>::empty(),
    decreases a.len(),
{
    let text = a + (seq![c] + b);
    if a.len() == 0 {
        assert(text.skip(1) =~= b);
        assert(up_to(text, c) =~= a);
        assert(up_to(a, c) =~= a);
    } else {
        assert(text.skip(1) =~= a.skip(1) + (seq![c] + b));
        assert forall|i: int| 0 <= i < a.skip(1).len() implies #[trigger] a.skip(1)[i] != c by {
            assert(a.skip(1)[i] == a[i + 1]);
        }
        texts_are_cut_at_the_first(a.skip(1), c, b);
        assert(seq![a[0]] + a.skip(1) =~= a);
    }
}

/// A parameter of a query is read by its name and its value, and the others after it.
pub proof fn parameters_are_read_one_by_one(
    name: Seq<char>,
    value: Seq<char>,
    rest: Seq<char>,
)
    requires
        forall|i: int| 0 <= i < name.len() ==> #[trigger] name[i] != '&' && name[i] != '=',
        forall|i: int| 0 <= i < value.len() ==> #[trigger] value[i] != '&',
    ensures
        parameters(name + (seq!['='] + (value + (seq!['&'] + rest)))) == seq![
            (name, url_decoded(value)),
        ] + parameters(rest),
        parameters(name + (seq!['='] + value)) == seq![(name, url_decoded(value))],
{
    let piece = name + (seq!['='] + value);
    let query = name + (seq!['='] + (value + (seq!['&'] + rest)));
    assert(query =~= piece + (seq!['&'] + rest));
    assert forall|i: int| 0 <= i < piece.len() implies #[trigger] piece[i] != '&' by {
        if i > name.len() {
            assert(piece[i] == value[i - name.len() - 1]);
        } else if i < name.len() {
            assert(piece[i] == name[i]);
        }
    }
    texts_are_cut_at_the_first(piece, '&', rest);
    texts_are_cut_at_the_first(name, '=', value);
    assert(parameters(Seq::<char>::empty()) =~= seq![]);
}

/// An unreserved value is read as it stands.
pub proof fn unreserved_values_are_read_as_they_stand(s: Seq<char>)
    requires
        forall|i: int| 0 <= i < s.len() ==> #[trigger] is_unreserved(s[i]),
    ensures
        url_decoded(s) == Some(s),
{
    unreserved_text_is_kept(s);
    encoded_text_reads_back(s);
}

} // verus!
