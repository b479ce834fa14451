//! Proof keys for the code exchange of a sign-in.
//!
//! Each sign-in makes a random *verifier* and shows only its *challenge*, the
//! hash of the verifier. Whoever exchanges the code has to present the verifier.

use crate::pkce_laws::{base64_reads_back, base64_uses_its_alphabet};
use crate::text::push_from;
use base64::Engine;
use rand::Rng;
use sha2::Digest;
use vstd::prelude::*;
use vstd::string::*;
use vstd::utf8::encode_utf8;

verus! {

/// The characters of a verifier.
pub const CHARSET: &'static str = "ABCDEFGHIJKLMNOPQRSTUVWXYZabcdefghijklmnopqrstuvwxyz0123456789-._~";

/// The length of a verifier.
pub const VERIFIER_LENGTH: usize = 64;

/// The characters of the URL-safe base64 alphabet, by the value of six bits.
pub open spec fn base64_alphabet() -> Seq<char> {
    "ABCDEFGHIJKLMNOPQRSTUVWXYZabcdefghijklmnopqrstuvwxyz0123456789-_"@
}

/// The byte at `i`, and zero behind the end.
pub open spec fn byte_or_zero(bytes: Seq<u8>, i: int) -> int {
    if i < bytes.len() {
        bytes[i] as int
    } else {
        0
    }
}

/// The six bits of `bytes` that start at bit `6 * i`: three bytes hold four of
/// them.
pub open spec fn sextet(bytes: Seq<u8>, i: int) -> int {
    let first = byte_or_zero(bytes, i / 4 * 3);
    let second = byte_or_zero(bytes, i / 4 * 3 + 1);
    let third = byte_or_zero(bytes, i / 4 * 3 + 2);
    if i % 4 == 0 {
        first / 4
    } else if i % 4 == 1 {
        first % 4 * 16 + second / 16
    } else if i % 4 == 2 {
        second % 16 * 4 + third / 64
    } else {
        third % 64
    }
}

/// URL-safe base64 without padding.
pub open spec fn base64_url(bytes: Seq<u8>) -> Seq<char> {
    Seq::new(((4 * bytes.len() + 2) / 3) as nat, |i: int| base64_alphabet()[sextet(bytes, i)])
}

/// The six bits that a character of the alphabet stands for.
pub open spec fn base64_value(c: char) -> int {
    base64_alphabet().index_of(c)
}

/// The byte at `j` of those that a base64 text stands for: eight bits that begin
/// in one character and end in the next.
pub open spec fn base64_byte(text: Seq<char>, j: int) -> int {
    let first = base64_value(text[j / 3 * 4 + j % 3]);
    let second = base64_value(text[j / 3 * 4 + j % 3 + 1]);
    if j % 3 == 0 {
        first * 4 + second / 16
    } else if j % 3 == 1 {
        first % 16 * 16 + second / 4
    } else {
        first % 4 * 64 + second
    }
}

/// Whether the bits of a base64 text behind its last whole byte are zero.
pub open spec fn ends_in_zero_bits(text: Seq<char>) -> bool {
    &&& text.len() % 4 == 2 ==> base64_value(text.last()) % 16 == 0
    &&& text.len() % 4 == 3 ==> base64_value(text.last()) % 4 == 0
}

/// Reads URL-safe base64 without padding: the bytes that a text stands for, if
/// it stands for any.
pub open spec fn base64_decoded(text: Seq<char>) -> Option<Seq<u8>> {
    if text.len() % 4 != 1 && (forall|i: int|
        0 <= i < text.len() ==> base64_alphabet().contains(#[trigger] text[i]))
        && ends_in_zero_bits(text) {
        Some(Seq::new((text.len() * 3 / 4) as nat, |j: int| base64_byte(text, j) as u8))
    } else {
        None
    }
}

/// The SHA-256 digest of some bytes.
pub uninterp spec fn sha256(data: Seq<u8>) -> Seq<u8>;

/// The challenge for a verifier.
pub open spec fn challenge_text(verifier: Seq<char>) -> Seq<char> {
    base64_url(sha256(encode_utf8(verifier)))
}

/// Computes a SHA-256 digest.
///
/// Calls `sha2::Sha256::digest`. Trusted: the result depends on the bytes alone
/// and has 32 bytes. Which 32 bytes is not stated.
#[verifier::external_body]
fn sha256_digest(data: &[u8]) -> (digest: Vec<u8>)
    ensures
        digest@ == sha256(data@),
        digest@.len() == 32,
{
    sha2::Sha256::digest(data).to_vec()
}

/// Encodes bytes in URL-safe base64.
///
/// Calls `encode` of `base64::engine::general_purpose::URL_SAFE_NO_PAD`.
/// Trusted: the result has one character of the URL-safe alphabet for every six
/// bits, the last of them filled up with zero bits, and no padding.
#[verifier::external_body]
fn base64_url_encode(bytes: &[u8]) -> (text: String)
    requires
        bytes@.len() <= isize::MAX / 2,
    ensures
        text@ == base64_url(bytes@),
{
    base64::engine::general_purpose::URL_SAFE_NO_PAD.encode(bytes)
}

/// Draws a random number below a bound.
///
/// Calls `gen_range` of `rand::thread_rng()` on the numbers from 0 up to the
/// bound, which panics where there are none. Trusted: the result is one of them.
/// It depends on chance, so nothing more is stated.
#[verifier::external_body]
fn random_below(bound: usize) -> (drawn: usize)
    requires
        0 < bound,
    ensures
        drawn < bound,
{
    rand::thread_rng().gen_range(0..bound)
}

/// Spells out draws from the characters of a verifier.
pub open spec fn spelled(draws: Seq<usize>) -> Seq<char> {
    draws.map_values(|draw: usize| CHARSET@[draw as int])
}

/// What a verifier looks like: 64 characters out of `CHARSET`.
pub open spec fn is_verifier(text: Seq<char>) -> bool {
    &&& text.len() == VERIFIER_LENGTH
    &&& forall|i: int| 0 <= i < text.len() ==> CHARSET@.contains(#[trigger] text[i])
}

/// Spells out draws from the characters of a verifier.
pub fn spell(draws: &Vec<usize>) -> (text: String)
    requires
        forall|i: int| 0 <= i < draws@.len() ==> #[trigger] draws@[i] < CHARSET@.len(),
    ensures
        text@ == spelled(draws@),
        text@.len() == draws@.len(),
        forall|i: int| #![trigger text@[i]]
            0 <= i < text@.len() ==> text@[i] == CHARSET@[draws@[i] as int],
{
    let mut text = String::new();
    let mut i: usize = 0;
    proof {
        reveal_strlit("ABCDEFGHIJKLMNOPQRSTUVWXYZabcdefghijklmnopqrstuvwxyz0123456789-._~");
    }
    while i < draws.len()
        invariant
            i <= draws@.len(),
            is_ascii(CHARSET),
            CHARSET@.len() == 66,
            forall|j: int| 0 <= j < draws@.len() ==> #[trigger] draws@[j] < CHARSET@.len(),
            text@ == spelled(draws@.take(i as int)),
        decreases draws@.len() - i,
    {
        push_from(&mut text, CHARSET, draws[i]);
        assert(spelled(draws@.take(i + 1)) =~= spelled(draws@.take(i as int)).push(
            CHARSET@[draws@[i as int] as int],
        ));
        i = i + 1;
    }
    assert(draws@.take(i as int) =~= draws@);
    text
}

/// Draws as many random numbers as a verifier has characters. Which ones they
/// are depends on chance: what is stated holds of every outcome.
pub fn random_draws() -> (draws: Vec<usize>)
    ensures
        draws@.len() == VERIFIER_LENGTH,
        draws@.len() == 64,
        forall|i: int| 0 <= i < draws@.len() ==> #[trigger] draws@[i] < CHARSET@.len(),
{
    proof {
        reveal_strlit("ABCDEFGHIJKLMNOPQRSTUVWXYZabcdefghijklmnopqrstuvwxyz0123456789-._~");
    }
    let mut draws: Vec<usize> = Vec::new();
    while draws.len() < VERIFIER_LENGTH
        invariant
            draws@.len() <= VERIFIER_LENGTH,
            is_ascii(CHARSET),
            CHARSET@.len() == 66,
            forall|j: int| 0 <= j < draws@.len() ==> #[trigger] draws@[j] < CHARSET@.len(),
        decreases VERIFIER_LENGTH - draws@.len(),
    {
        draws.push(random_below(CHARSET.as_bytes().len()));
    }
    draws
}

/// As many draws as a verifier has characters spell out a verifier.
pub proof fn lemma_spelled_is_verifier(draws: Seq<usize>)
    requires
        draws.len() == VERIFIER_LENGTH,
        forall|i: int| 0 <= i < draws.len() ==> #[trigger] draws[i] < CHARSET@.len(),
    ensures
        is_verifier(spelled(draws)),
{
    let text = spelled(draws);
    assert forall|i: int| 0 <= i < text.len() implies CHARSET@.contains(#[trigger] text[i]) by {
        assert(text[i] == CHARSET@[draws[i] as int]);
    }
}

/// Makes a random verifier. Which one it is depends on chance: what is stated
/// holds of every outcome.
pub fn generate_code_verifier() -> (verifier: String)
    ensures
        is_verifier(verifier@),
        verifier@.len() == 64,
        forall|i: int| 0 <= i < verifier@.len() ==> CHARSET@.contains(#[trigger] verifier@[i]),
{
    let draws = random_draws();
    proof {
        lemma_spelled_is_verifier(draws@);
    }
    spell(&draws)
}

/// The challenge for a verifier with this digest.
pub fn challenge_from_digest(digest: &[u8]) -> (challenge: String)
    requires
        digest@.len() == 32,
    ensures
        challenge@ == base64_url(digest@),
        challenge@.len() == 43,
        forall|i: int|
            0 <= i < challenge@.len() ==> base64_alphabet().contains(#[trigger] challenge@[i]),
        base64_decoded(challenge@) == Some(digest@),
{
    proof {
        base64_uses_its_alphabet(digest@);
        base64_reads_back(digest@);
    }
    base64_url_encode(digest)
}

/// The challenge for a verifier: 43 characters of the URL-safe alphabet that
/// decode to the digest of the verifier.
pub fn code_challenge_from_verifier(verifier: &str) -> (challenge: String)
    ensures
        challenge@ == challenge_text(verifier@),
        challenge@.len() == 43,
        forall|i: int|
            0 <= i < challenge@.len() ==> base64_alphabet().contains(#[trigger] challenge@[i]),
        base64_decoded(challenge@) == Some(sha256(encode_utf8(verifier@))),
{
    let hash = sha256_digest(verifier.as_bytes());
    proof {
        base64_uses_its_alphabet(hash@);
        base64_reads_back(hash@);
    }
    challenge_from_digest(hash.as_slice())
}

} // verus!
