//! What holds of verifiers and challenges.

use crate::pkce::{
    base64_alphabet, base64_byte, base64_decoded, base64_url, base64_value, ends_in_zero_bits,
    is_verifier, sextet, CHARSET,
};
use crate::url::is_unreserved;
use vstd::prelude::*;

verus! {

/// The number that the code of a character of the base64 alphabet gives away.
spec fn value_by_code(c: char) -> int {
    let n = c as int;
    if 0x41 <= n <= 0x5a {
        n - 0x41
    } else if 0x61 <= n <= 0x7a {
        n - 0x61 + 26
    } else if 0x30 <= n <= 0x39 {
        n - 0x30 + 52
    } else if n == 0x2d {
        62
    } else {
        63
    }
}

/// The base64 alphabet is unreserved, and the codes of its characters give away
/// their places.
proof fn lemma_base64_codes(i: int)
    requires
        0 <= i < 64,
    ensures
        base64_alphabet().len() == 64,
        is_unreserved(base64_alphabet()[i]),
        value_by_code(base64_alphabet()[i]) == i,
{
    reveal_strlit("ABCDEFGHIJKLMNOPQRSTUVWXYZabcdefghijklmnopqrstuvwxyz0123456789-_");
}

/// The base64 alphabet is unreserved, and its characters are told apart by the
/// number that they stand for.
proof fn lemma_base64_alphabet(i: int)
    requires
        0 <= i < 64,
    ensures
        is_unreserved(base64_alphabet()[i]),
        base64_alphabet().contains(base64_alphabet()[i]),
        base64_value(base64_alphabet()[i]) == i,
{
    lemma_base64_codes(i);
    let at = base64_value(base64_alphabet()[i]);
    assert(0 <= at < 64 && base64_alphabet()[at] == base64_alphabet()[i]);
    lemma_base64_codes(at);
}

/// A byte is a number below 256.
proof fn lemma_byte(b: u8)
    ensures
        0 <= b as int <= 255,
{
}

/// Six bits are a number below 64.
proof fn lemma_sextet(bytes: Seq<u8>, i: int)
    requires
        0 <= i,
    ensures
        0 <= sextet(bytes, i) < 64,
{
    lemma_byte(bytes[i / 4 * 3]);
    lemma_byte(bytes[i / 4 * 3 + 1]);
    lemma_byte(bytes[i / 4 * 3 + 2]);
}

/// Base64 texts, and so all challenges, hold unreserved characters only: in a
/// URL they stand for themselves.
pub proof fn base64_is_unreserved(bytes: Seq<u8>)
    ensures
        forall|i: int|
            0 <= i < base64_url(bytes).len() ==> is_unreserved(#[trigger] base64_url(bytes)[i]),
{
    assert forall|i: int| 0 <= i < base64_url(bytes).len() implies is_unreserved(
        #[trigger] base64_url(bytes)[i],
    ) by {
        lemma_sextet(bytes, i);
        lemma_base64_alphabet(sextet(bytes, i));
    }
}

/// A verifier is between 43 and 128 unreserved characters, as a verifier has to
/// be.
pub proof fn verifier_is_well_formed(verifier: Seq<char>)
    requires
        is_verifier(verifier),
    ensures
        43 <= verifier.len() <= 128,
        forall|i: int| 0 <= i < verifier.len() ==> is_unreserved(#[trigger] verifier[i]),
{
    reveal_strlit("ABCDEFGHIJKLMNOPQRSTUVWXYZabcdefghijklmnopqrstuvwxyz0123456789-._~");
    assert forall|i: int| 0 <= i < verifier.len() implies is_unreserved(#[trigger] verifier[i]) by {
        let at = choose|at: int| 0 <= at < CHARSET@.len() && CHARSET@[at] == verifier[i];
        assert(is_unreserved(CHARSET@[at]));
    }
}

/// Base64 texts, and so all challenges, are made of the URL-safe alphabet: letters,
/// digits, `-` and `_`.
pub proof fn base64_uses_its_alphabet(bytes: Seq<u8>)
    ensures
        forall|i: int|
            0 <= i < base64_url(bytes).len() ==> base64_alphabet().contains(
                #[trigger] base64_url(bytes)[i],
            ),
{
    assert forall|i: int| 0 <= i < base64_url(bytes).len() implies base64_alphabet().contains(
        #[trigger] base64_url(bytes)[i],
    ) by {
        lemma_sextet(bytes, i);
        lemma_base64_alphabet(sextet(bytes, i));
    }
}

/// The six bits at `i` can be read off the text.
proof fn lemma_value_at(bytes: Seq<u8>, i: int)
    requires
        0 <= i < base64_url(bytes).len(),
    ensures
        base64_value(base64_url(bytes)[i]) == sextet(bytes, i),
{
    lemma_sextet(bytes, i);
    lemma_base64_alphabet(sextet(bytes, i));
}

/// The byte at `j` can be read off the text.
proof fn lemma_byte_reads_back(bytes: Seq<u8>, j: int)
    requires
        0 <= j < bytes.len(),
    ensures
        base64_byte(base64_url(bytes), j) == bytes[j],
{
    let at = j / 3 * 4 + j % 3;
    assert(0 <= at && at + 1 < base64_url(bytes).len());
    assert(at / 4 == j / 3 && at % 4 == j % 3);
    lemma_byte(bytes[j]);
    lemma_byte(bytes[j + 1]);
    lemma_byte(bytes[j - 1]);
    lemma_value_at(bytes, at);
    lemma_value_at(bytes, at + 1);
}

/// The bits behind the last byte are zero.
proof fn lemma_ends_in_zero_bits(bytes: Seq<u8>)
    ensures
        ends_in_zero_bits(base64_url(bytes)),
{
    let text = base64_url(bytes);
    if text.len() % 4 == 2 || text.len() % 4 == 3 {
        lemma_value_at(bytes, text.len() - 1);
    }
}

/// Base64 reads back: a base64 text decodes to the bytes that it was made of. So a
/// challenge decodes to the digest of its verifier.
pub proof fn base64_reads_back(bytes: Seq<u8>)
    ensures
        base64_decoded(base64_url(bytes)) == Some(bytes),
{
    let text = base64_url(bytes);
    base64_uses_its_alphabet(bytes);
    lemma_ends_in_zero_bits(bytes);
    let read = Seq::new((text.len() * 3 / 4) as nat, |j: int| base64_byte(text, j) as u8);
    assert forall|j: int| 0 <= j < bytes.len() implies read[j] == bytes[j] by {
        lemma_byte_reads_back(bytes, j);
    }
    assert(read =~= bytes);
}

/// Base64 loses nothing: different bytes have different texts.
pub proof fn base64_is_unambiguous(a: Seq<u8>, b: Seq<u8>)
    requires
        base64_url(a) == base64_url(b),
    ensures
        a == b,
{
    base64_reads_back(a);
    base64_reads_back(b);
}

} // verus!
