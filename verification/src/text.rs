//! Building blocks for the texts that the library writes.

use vstd::prelude::*;
use vstd::string::*;

verus! {

/// The decimal digits of `n`, most significant first.
pub open spec fn decimal_text(n: nat) -> Seq<char>
    decreases n,
{
    if n < 10 {
        seq!["0123456789"@[n as int]]
    } else {
        decimal_text(n / 10).push("0123456789"@[(n % 10) as int])
    }
}

/// Adds the character of `alphabet` at `index` to the end of `out`.
pub(crate) fn push_from(out: &mut String, alphabet: &str, index: usize)
    requires
        is_ascii(alphabet),
        index < alphabet@.len(),
        index < usize::MAX,
    ensures
        final(out)@ == old(out)@.push(alphabet@[index as int]),
{
    out.append(alphabet.substring_ascii(index, index + 1));
}

/// Writes `n` in decimal.
pub fn decimal(n: u16) -> (text: String)
    ensures
        text@ == decimal_text(n as nat),
    decreases n,
{
    proof {
        reveal_strlit("0123456789");
    }
    let mut text = if n < 10 {
        String::new()
    } else {
        decimal(n / 10)
    };
    push_from(&mut text, "0123456789", (n % 10) as usize);
    text
}

/// What `f` makes of a sequence begins with what it makes of the first item.
pub proof fn lemma_flat_map_first<A, B>(s: Seq<A>, f: spec_fn(A) -> Seq<B>)
    requires
        s.len() > 0,
    ensures
        s.flat_map(f) == f(s[0]) + s.drop_first().flat_map(f),
{
    assert(s.map_values(f).drop_first() =~= s.drop_first().map_values(f));
}

/// How numbers are written: one below ten as its digit, and any other as what it is
/// without its last digit, followed by that digit.
pub proof fn numbers_are_written_digit_by_digit(n: nat, digit: nat)
    requires
        digit < 10,
    ensures
        decimal_text(digit) == seq![(0x30 + digit) as char],
        n > 0 ==> decimal_text(10 * n + digit) == decimal_text(n).push((0x30 + digit) as char),
{
    reveal_strlit("0123456789");
    assert((10 * n + digit) / 10 == n && (10 * n + digit) % 10 == digit);
    assert("0123456789"@[digit as int] == (0x30 + digit) as char);
}

} // verus!
