//! What holds of reading JSON: a value is read the same where more follows it.

use crate::reader::{
    begins_with, begins_with_word, four_digits, is_digit, is_number, is_number_char, is_space,
    number_length, read_escape, read_items, read_members, read_string, read_unicode, read_value,
    skip_space,
};
use vstd::prelude::*;

verus! {

/// White space at the beginning is skipped the same where more follows.
proof fn lemma_skip_space_before(s: Seq<char>, t: Seq<char>)
    requires
        t.len() > 0,
        !is_space(t[0]),
    ensures
        skip_space(s + t) == skip_space(s) + t,
        skip_space(s).len() <= s.len(),
    decreases s.len(),
{
    if s.len() > 0 && is_space(s[0]) {
        assert((s + t).skip(1) =~= s.skip(1) + t);
        lemma_skip_space_before(s.skip(1), t);
    } else if s.len() == 0 {
        assert(s + t =~= t);
        assert(skip_space(s) + t =~= t);
    }
}

/// Four digits are read the same where more follows.
proof fn lemma_unicode_before(s: Seq<char>, t: Seq<char>)
    ensures
        read_unicode(s) matches Some((c, rest)) ==> read_unicode(s + t) == Some((c, rest + t))
            && rest.len() <= s.len(),
{
    if read_unicode(s) is Some {
    assert(four_digits(s + t) == four_digits(s));
    let high = four_digits(s)->0;
    if 0xd800 <= high <= 0xdbff {
        assert((s + t).skip(6) =~= s.skip(6) + t);
        assert(four_digits(s.skip(6) + t) == four_digits(s.skip(6)));
        assert((s + t).skip(10) =~= s.skip(10) + t);
    } else {
        assert((s + t).skip(4) =~= s.skip(4) + t);
    }
    }
}

/// An escape is read the same where more follows.
proof fn lemma_escape_before(s: Seq<char>, t: Seq<char>)
    ensures
        read_escape(s) matches Some((c, rest)) ==> read_escape(s + t) == Some((c, rest + t))
            && rest.len() < s.len(),
{
    if s.len() > 0 {
        assert((s + t).skip(1) =~= s.skip(1) + t);
        lemma_unicode_before(s.skip(1), t);
    }
}

/// A string is read the same where more follows.
proof fn lemma_string_before(s: Seq<char>, t: Seq<char>)
    ensures
        read_string(s) matches Some((text, rest)) ==> read_string(s + t) == Some((text, rest + t))
            && rest.len() < s.len(),
    decreases s.len(),
{
    if s.len() > 0 && read_string(s) is Some {
        assert((s + t).skip(1) =~= s.skip(1) + t);
        if s[0] == '\\' {
            lemma_escape_before(s.skip(1), t);
            match read_escape(s.skip(1)) {
                Some((c, rest)) => {
                    lemma_string_before(rest, t);
                },
                None => {},
            }
        } else if s[0] != '"' {
            lemma_string_before(s.skip(1), t);
        }
    }
}

/// A number is as long where something follows that no number is written with.
proof fn lemma_number_before(s: Seq<char>, t: Seq<char>)
    requires
        t.len() > 0,
        !is_number_char(t[0]),
    ensures
        number_length(s + t) == number_length(s),
        number_length(s) <= s.len(),
    decreases s.len(),
{
    if s.len() > 0 && is_number_char(s[0]) {
        assert((s + t).skip(1) =~= s.skip(1) + t);
        lemma_number_before(s.skip(1), t);
    } else if s.len() == 0 {
        assert(s + t =~= t);
    }
}

/// A word is found the same where more follows.
proof fn lemma_word_before(s: Seq<char>, word: Seq<char>, t: Seq<char>)
    requires
        begins_with_word(s, word),
    ensures
        begins_with_word(s + t, word),
        (s + t).skip(word.len() as int) == s.skip(word.len() as int) + t,
{
    assert((s + t).take(word.len() as int) =~= s.take(word.len() as int));
    assert((s + t).skip(word.len() as int) =~= s.skip(word.len() as int) + t);
}

/// Members begin with a key.
proof fn lemma_members_begin(s: Seq<char>)
    ensures
        read_members(s) is Some ==> begins_with(skip_space(s), '"'),
    decreases s.len(),
{
    if s.len() > 0 && is_space(s[0]) {
        lemma_members_begin(s.skip(1));
    }
}

/// A number begins with a digit or a minus sign, which no word does.
proof fn lemma_number_is_no_word(s: Seq<char>)
    requires
        number_length(s) <= s.len(),
        is_number(s.take(number_length(s) as int)),
    ensures
        s.len() > 0,
        !begins_with_word(s, "null"@),
        !begins_with_word(s, "true"@),
        !begins_with_word(s, "false"@),
{
    reveal_strlit("null");
    reveal_strlit("true");
    reveal_strlit("false");
    let token = s.take(number_length(s) as int);
    assert(token.len() > 0);
    assert(token[0] == s[0]);
    assert(token[0] == '-' || is_digit(token[0]));
    if begins_with_word(s, "null"@) {
        assert(s.take(4)[0] == s[0]);
    }
    if begins_with_word(s, "true"@) {
        assert(s.take(4)[0] == s[0]);
    }
    if begins_with_word(s, "false"@) {
        assert(s.take(5)[0] == s[0]);
    }
}

/// A word or a number is read the same where a closing brace follows.
proof fn lemma_token_before(s: Seq<char>, t: Seq<char>)
    requires
        s.len() > 0,
        !is_space(s[0]),
        s[0] != '"' && s[0] != '[' && s[0] != '{',
        begins_with(t, '}'),
    ensures
        read_value(s) matches Some((value, rest)) ==> read_value(s + t) == Some((value, rest + t)),
{
    reveal_strlit("null");
    reveal_strlit("true");
    reveal_strlit("false");
    let whole = s + t;
    assert(whole[0] == s[0]);
    if begins_with_word(s, "null"@) {
        lemma_word_before(s, "null"@, t);
        lemma_skip_space_before(s.skip(4), t);
    } else if begins_with_word(s, "true"@) {
        lemma_word_before(s, "true"@, t);
        lemma_skip_space_before(s.skip(4), t);
        assert(whole.take(4)[0] == 't');
    } else if begins_with_word(s, "false"@) {
        lemma_word_before(s, "false"@, t);
        lemma_skip_space_before(s.skip(5), t);
        assert(whole.take(5)[0] == 'f');
        assert(whole.take(4)[0] == 'f');
    } else {
        lemma_number_before(s, t);
        let n = number_length(s) as int;
        if is_number(s.take(n)) {
            assert(whole.take(n) =~= s.take(n));
            lemma_number_is_no_word(s);
            lemma_number_is_no_word(whole);
            assert(whole.skip(n) =~= s.skip(n) + t);
            lemma_skip_space_before(s.skip(n), t);
        }
    }
}

/// A value is read the same where a closing brace follows.
pub proof fn lemma_value_before(s: Seq<char>, t: Seq<char>)
    requires
        begins_with(t, '}'),
    ensures
        read_value(s) matches Some((value, rest)) ==> read_value(s + t) == Some((value, rest + t)),
    decreases s.len(), 1nat,
{
    if s.len() > 0 && read_value(s) is Some {
        let whole = s + t;
        assert(whole[0] == s[0]);
        assert(whole.skip(1) =~= s.skip(1) + t);
        if is_space(s[0]) {
            lemma_value_before(s.skip(1), t);
        } else if s[0] == '"' {
            lemma_string_before(s.skip(1), t);
            match read_string(s.skip(1)) {
                Some((text, rest)) => {
                    lemma_skip_space_before(rest, t);
                },
                None => {},
            }
        } else if s[0] == '[' {
            lemma_array_before(s, t);
        } else if s[0] == '{' {
            lemma_object_before(s, t);
        } else {
            lemma_token_before(s, t);
        }
    }
}

/// An array is read the same where a closing brace follows.
proof fn lemma_array_before(s: Seq<char>, t: Seq<char>)
    requires
        begins_with(t, '}'),
        begins_with(s, '['),
    ensures
        read_value(s) matches Some((value, rest)) ==> read_value(s + t) == Some((value, rest + t)),
    decreases s.len(), 0nat,
{
    let inner = s.skip(1);
    let begin = skip_space(inner);
    assert((s + t)[0] == s[0]);
    assert((s + t).skip(1) =~= inner + t);
    lemma_skip_space_before(inner, t);
    if begins_with(begin, ']') {
        assert((begin + t).skip(1) =~= begin.skip(1) + t);
        lemma_skip_space_before(begin.skip(1), t);
    } else {
        assert(!begins_with(begin + t, ']'));
        lemma_items_before(inner, t);
        match read_items(inner) {
            Some((items, rest)) => {
                lemma_skip_space_before(rest, t);
            },
            None => {},
        }
    }
}

/// An object is read the same where a closing brace follows.
proof fn lemma_object_before(s: Seq<char>, t: Seq<char>)
    requires
        begins_with(t, '}'),
        begins_with(s, '{'),
    ensures
        read_value(s) matches Some((value, rest)) ==> read_value(s + t) == Some((value, rest + t)),
    decreases s.len(), 0nat,
{
    let inner = s.skip(1);
    let begin = skip_space(inner);
    assert((s + t)[0] == s[0]);
    assert((s + t).skip(1) =~= inner + t);
    lemma_skip_space_before(inner, t);
    if begins_with(begin, '}') {
        assert((begin + t).skip(1) =~= begin.skip(1) + t);
        lemma_skip_space_before(begin.skip(1), t);
    } else {
        lemma_members_begin(inner);
        lemma_members_before(inner, t);
        match read_members(inner) {
            Some((members, rest)) => {
                assert(!begins_with(begin + t, '}'));
                lemma_skip_space_before(rest, t);
            },
            None => {},
        }
    }
}

/// Items are read the same where a closing brace follows.
proof fn lemma_items_before(s: Seq<char>, t: Seq<char>)
    requires
        begins_with(t, '}'),
    ensures
        read_items(s) matches Some((items, rest)) ==> read_items(s + t) == Some((items, rest + t)),
    decreases s.len(), 2nat,
{
    lemma_value_before(s, t);
    match read_value(s) {
        Some((item, rest)) => {
            if rest.len() > 0 {
                assert((rest + t).skip(1) =~= rest.skip(1) + t);
                if begins_with(rest, ',') && rest.len() <= s.len() {
                    lemma_items_before(rest.skip(1), t);
                }
            }
        },
        None => {},
    }
}

/// Members are read the same where a closing brace follows.
proof fn lemma_members_before(s: Seq<char>, t: Seq<char>)
    requires
        begins_with(t, '}'),
    ensures
        read_members(s) matches Some((members, rest)) ==> read_members(s + t) == Some(
            (members, rest + t),
        ),
    decreases s.len(), 2nat,
{
    if s.len() > 0 && read_members(s) is Some {
        assert((s + t)[0] == s[0]);
        assert((s + t).skip(1) =~= s.skip(1) + t);
        if is_space(s[0]) {
            lemma_members_before(s.skip(1), t);
        } else if s[0] == '"' {
            lemma_string_before(s.skip(1), t);
            match read_string(s.skip(1)) {
                Some((key, rest)) => {
                    let colon = skip_space(rest);
                    lemma_skip_space_before(rest, t);
                    assert((colon + t).skip(1) =~= colon.skip(1) + t);
                    lemma_value_before(colon.skip(1), t);
                    match read_value(colon.skip(1)) {
                        Some((value, after)) => {
                            assert((after + t).skip(1) =~= after.skip(1) + t);
                            if begins_with(after, ',') && after.len() <= s.len() {
                                lemma_members_before(after.skip(1), t);
                            }
                        },
                        None => {},
                    }
                },
                None => {},
            }
        }
    }
}

} // verus!
