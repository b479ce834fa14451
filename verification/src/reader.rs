//! What a JSON text stands for.

use vstd::prelude::*;

verus! {

/// A JSON value. A number is kept as it is written.
pub enum Json {
    Null,
    Bool(bool),
    Number(Seq<char>),
    Text(Seq<char>),
    Array(Seq<Json>),
    Object(Seq<(Seq<char>, Json)>),
}

/// White space between the parts of a JSON text.
pub open spec fn is_space(c: char) -> bool {
    c == ' ' || c == '\t' || c == '\n' || c == '\r'
}

/// What follows the white space at the beginning.
pub open spec fn skip_space(s: Seq<char>) -> Seq<char>
    decreases s.len(),
{
    if s.len() > 0 && is_space(s[0]) {
        skip_space(s.skip(1))
    } else {
        s
    }
}

/// Whether a text begins with a character.
pub open spec fn begins_with(s: Seq<char>, c: char) -> bool {
    s.len() > 0 && s[0] == c
}

/// The number that a hexadecimal digit stands for; 16 for no digit.
pub open spec fn hex_digit(c: char) -> int {
    let n = c as int;
    if 0x30 <= n <= 0x39 {
        n - 0x30
    } else if 0x61 <= n <= 0x66 {
        n - 0x61 + 10
    } else if 0x41 <= n <= 0x46 {
        n - 0x41 + 10
    } else {
        16
    }
}

/// The number that the first four characters stand for, if they are hexadecimal
/// digits.
pub open spec fn four_digits(s: Seq<char>) -> Option<int> {
    if s.len() >= 4 && hex_digit(s[0]) < 16 && hex_digit(s[1]) < 16 && hex_digit(s[2]) < 16
        && hex_digit(s[3]) < 16 {
        Some(
            hex_digit(s[0]) * 0x1000 + hex_digit(s[1]) * 0x100 + hex_digit(s[2]) * 0x10 + hex_digit(
                s[3],
            ),
        )
    } else {
        None
    }
}

/// Reads what stands behind `\u`: one character, in one group of four digits or,
/// beyond U+FFFF, in two. Gives the character and what follows.
pub open spec fn read_unicode(s: Seq<char>) -> Option<(char, Seq<char>)> {
    match four_digits(s) {
        Some(high) if 0xd800 <= high <= 0xdbff => if s.len() >= 6 && s[4] == '\\' && s[5] == 'u' {
            match four_digits(s.skip(6)) {
                Some(low) if 0xdc00 <= low <= 0xdfff => Some(
                    (
                        (0x10000 + (high - 0xd800) * 0x400 + (low - 0xdc00)) as char,
                        s.skip(10),
                    ),
                ),
                _ => None,
            }
        } else {
            None
        },
        Some(code) if 0xdc00 <= code <= 0xdfff => None,
        Some(code) => Some((code as char, s.skip(4))),
        None => None,
    }
}

/// Reads what stands behind a backslash in a string: a character, and what
/// follows.
pub open spec fn read_escape(s: Seq<char>) -> Option<(char, Seq<char>)> {
    if s.len() == 0 {
        None
    } else if s[0] == '"' || s[0] == '\\' || s[0] == '/' {
        Some((s[0], s.skip(1)))
    } else if s[0] == 'b' {
        Some(('\u{8}', s.skip(1)))
    } else if s[0] == 'f' {
        Some(('\u{c}', s.skip(1)))
    } else if s[0] == 'n' {
        Some(('\n', s.skip(1)))
    } else if s[0] == 'r' {
        Some(('\r', s.skip(1)))
    } else if s[0] == 't' {
        Some(('\t', s.skip(1)))
    } else if s[0] == 'u' {
        read_unicode(s.skip(1))
    } else {
        None
    }
}

/// Reads a string behind its opening quote: its text, and what follows the
/// closing quote.
pub open spec fn read_string(s: Seq<char>) -> Option<(Seq<char>, Seq<char>)>
    decreases s.len(),
{
    if s.len() == 0 {
        None
    } else if s[0] == '"' {
        Some((seq![], s.skip(1)))
    } else if s[0] == '\\' {
        match read_escape(s.skip(1)) {
            Some((c, rest)) if rest.len() < s.len() => match read_string(rest) {
                Some((text, after)) => Some((seq![c] + text, after)),
                None => None,
            },
            _ => None,
        }
    } else if (s[0] as int) < 32 {
        None
    } else {
        match read_string(s.skip(1)) {
            Some((text, after)) => Some((seq![s[0]] + text, after)),
            None => None,
        }
    }
}

/// Whether a character is a decimal digit.
pub open spec fn is_digit(c: char) -> bool {
    0x30 <= (c as int) <= 0x39
}

/// The characters that numbers are written with.
pub open spec fn is_number_char(c: char) -> bool {
    is_digit(c) || c == '-' || c == '+' || c == '.' || c == 'e' || c == 'E'
}

/// What follows the digits at the beginning.
pub open spec fn skip_digits(s: Seq<char>) -> Seq<char>
    decreases s.len(),
{
    if s.len() > 0 && is_digit(s[0]) {
        skip_digits(s.skip(1))
    } else {
        s
    }
}

/// Whether a text is the exponent of a number, or nothing.
pub open spec fn is_exponent(s: Seq<char>) -> bool {
    if begins_with(s, 'e') || begins_with(s, 'E') {
        let digits = if begins_with(s.skip(1), '+') || begins_with(s.skip(1), '-') {
            s.skip(2)
        } else {
            s.skip(1)
        };
        digits.len() > 0 && skip_digits(digits).len() == 0
    } else {
        s.len() == 0
    }
}

/// Whether a text is the fraction of a number, or nothing, and then its exponent,
/// or nothing.
pub open spec fn is_fraction(s: Seq<char>) -> bool {
    if begins_with(s, '.') {
        s.len() > 1 && is_digit(s[1]) && is_exponent(skip_digits(s.skip(1)))
    } else {
        is_exponent(s)
    }
}

/// Whether a text is a number: a sign or none, digits without a leading zero, a
/// fraction and an exponent.
pub open spec fn is_number(s: Seq<char>) -> bool {
    let digits = if begins_with(s, '-') {
        s.skip(1)
    } else {
        s
    };
    &&& digits.len() > 0
    &&& is_digit(digits[0])
    &&& is_fraction(
        if digits[0] == '0' {
            digits.skip(1)
        } else {
            skip_digits(digits)
        },
    )
}

/// How many characters at the beginning are those of a number.
pub open spec fn number_length(s: Seq<char>) -> nat
    decreases s.len(),
{
    if s.len() > 0 && is_number_char(s[0]) {
        1 + number_length(s.skip(1))
    } else {
        0
    }
}

/// Whether a text begins with a word.
pub open spec fn begins_with_word(s: Seq<char>, word: Seq<char>) -> bool {
    s.len() >= word.len() && s.take(word.len() as int) == word
}

/// Reads a value: the value, and what follows it and the white space behind it.
pub open spec fn read_value(s: Seq<char>) -> Option<(Json, Seq<char>)>
    decreases s.len(), 0nat,
{
    if s.len() == 0 {
        None
    } else if is_space(s[0]) {
        read_value(s.skip(1))
    } else if s[0] == '"' {
        match read_string(s.skip(1)) {
            Some((text, rest)) => Some((Json::Text(text), skip_space(rest))),
            None => None,
        }
    } else if s[0] == '[' {
        if begins_with(skip_space(s.skip(1)), ']') {
            Some((Json::Array(seq![]), skip_space(skip_space(s.skip(1)).skip(1))))
        } else {
            match read_items(s.skip(1)) {
                Some((items, rest)) => Some((Json::Array(items), skip_space(rest))),
                None => None,
            }
        }
    } else if s[0] == '{' {
        if begins_with(skip_space(s.skip(1)), '}') {
            Some((Json::Object(seq![]), skip_space(skip_space(s.skip(1)).skip(1))))
        } else {
            match read_members(s.skip(1)) {
                Some((members, rest)) => Some((Json::Object(members), skip_space(rest))),
                None => None,
            }
        }
    } else if begins_with_word(s, "null"@) {
        Some((Json::Null, skip_space(s.skip(4))))
    } else if begins_with_word(s, "true"@) {
        Some((Json::Bool(true), skip_space(s.skip(4))))
    } else if begins_with_word(s, "false"@) {
        Some((Json::Bool(false), skip_space(s.skip(5))))
    } else {
        let token = s.take(number_length(s) as int);
        if is_number(token) {
            Some((Json::Number(token), skip_space(s.skip(number_length(s) as int))))
        } else {
            None
        }
    }
}

/// Reads the items of an array behind its opening bracket: the items, and what
/// follows the closing bracket.
pub open spec fn read_items(s: Seq<char>) -> Option<(Seq<Json>, Seq<char>)>
    decreases s.len(), 1nat,
{
    match read_value(s) {
        Some((item, rest)) => if begins_with(rest, ']') {
            Some((seq![item], rest.skip(1)))
        } else if begins_with(rest, ',') && rest.len() <= s.len() {
            match read_items(rest.skip(1)) {
                Some((items, after)) => Some((seq![item] + items, after)),
                None => None,
            }
        } else {
            None
        },
        None => None,
    }
}

/// Reads the members of an object behind its opening brace: the members, and what
/// follows the closing brace.
pub open spec fn read_members(s: Seq<char>) -> Option<(Seq<(Seq<char>, Json)>, Seq<char>)>
    decreases s.len(), 1nat,
{
    if s.len() == 0 {
        None
    } else if is_space(s[0]) {
        read_members(s.skip(1))
    } else if s[0] == '"' {
        match read_string(s.skip(1)) {
            Some((key, colon)) => {
                let colon = skip_space(colon);
                if begins_with(colon, ':') && colon.len() < s.len() {
                    match read_value(colon.skip(1)) {
                        Some((value, rest)) => if begins_with(rest, '}') {
                            Some((seq![(key, value)], rest.skip(1)))
                        } else if begins_with(rest, ',') && rest.len() <= s.len() {
                            match read_members(rest.skip(1)) {
                                Some((members, after)) => Some(
                                    (seq![(key, value)] + members, after),
                                ),
                                None => None,
                            }
                        } else {
                            None
                        },
                        None => None,
                    }
                } else {
                    None
                }
            },
            None => None,
        }
    } else {
        None
    }
}

/// The value that a JSON text stands for, if it is one.
pub open spec fn json_value(text: Seq<char>) -> Option<Json> {
    match read_value(text) {
        Some((value, rest)) => if rest.len() == 0 {
            Some(value)
        } else {
            None
        },
        None => None,
    }
}

} // verus!
