//! Plain text for numbers: writing an integer in decimal notation, and
//! reading one.

use vstd::prelude::*;

verus! {

/// The character of a decimal digit.
pub open spec fn digit_char(digit: int) -> char {
    ('0' as int + digit) as char
}

/// The decimal digits of a natural number, most significant first, without
/// leading zeros.
pub open spec fn digits(n: nat) -> Seq<char>
    decreases n,
{
    if n < 10 {
        seq![digit_char(n as int)]
    } else {
        digits(n / 10).push(digit_char((n % 10) as int))
    }
}

/// The decimal notation of an integer: a minus sign before the digits of a
/// negative number, no sign otherwise.
pub open spec fn decimal(n: int) -> Seq<char> {
    if n < 0 {
        seq!['-'] + digits((-n) as nat)
    } else {
        digits(n as nat)
    }
}

/// The text of one decimal digit.
fn digit_text(digit: u32) -> (text: &'static str)
    requires
        digit < 10,
    ensures
        text@ == seq![digit_char(digit as int)],
{
    proof {
        reveal_strlit("0");
        reveal_strlit("1");
        reveal_strlit("2");
        reveal_strlit("3");
        reveal_strlit("4");
        reveal_strlit("5");
        reveal_strlit("6");
        reveal_strlit("7");
        reveal_strlit("8");
        reveal_strlit("9");
    }
    let text = match digit {
        0 => "0",
        1 => "1",
        2 => "2",
        3 => "3",
        4 => "4",
        5 => "5",
        6 => "6",
        7 => "7",
        8 => "8",
        _ => "9",
    };
    assert(text@ =~= seq![digit_char(digit as int)]);
    text
}

/// Appends the decimal digits of `n` to `text`.
fn push_digits(text: &mut String, n: u32)
    ensures
        final(text)@ == old(text)@ + digits(n as nat),
    decreases n,
{
    if n >= 10 {
        push_digits(text, n / 10);
    }
    text.append(digit_text(n % 10));
    assert(text@ =~= old(text)@ + digits(n as nat));
}

/// Appends the decimal notation of `n` to `text`.
pub fn push_decimal(text: &mut String, n: i32)
    ensures
        final(text)@ == old(text)@ + decimal(n as int),
{
    if n < 0 {
        proof {
            reveal_strlit("-");
        }
        text.append("-");
        let magnitude = (-(n as i64)) as u32;
        push_digits(text, magnitude);
        assert(text@ =~= old(text)@ + decimal(n as int));
    } else {
        push_digits(text, n as u32);
    }
}

/// Whether a character is one of the ten decimal digits.
pub open spec fn is_digit(c: char) -> bool {
    '0' <= c <= '9'
}

/// The value of a decimal digit.
pub open spec fn digit_value(c: char) -> nat {
    (c as int - '0' as int) as nat
}

/// The number that a sequence of decimal digits denotes, most significant
/// digit first. The empty sequence denotes zero.
pub open spec fn digits_value(s: Seq<char>) -> nat
    decreases s.len(),
{
    if s.len() == 0 {
        0
    } else {
        digits_value(s.drop_last()) * 10 + digit_value(s.last())
    }
}

/// Whether a sequence holds nothing but decimal digits.
pub open spec fn all_digits(s: Seq<char>) -> bool {
    forall|i: int| 0 <= i < s.len() ==> is_digit(#[trigger] s[i])
}

/// The number that a text denotes: an optional plus sign, then one or more
/// decimal digits and nothing else. Any other text denotes no number.
pub open spec fn unsigned_value(s: Seq<char>) -> Option<nat> {
    let body = if s.len() > 0 && s[0] == '+' {
        s.drop_first()
    } else {
        s
    };
    if body.len() > 0 && all_digits(body) {
        Some(digits_value(body))
    } else {
        None
    }
}

/// Whether a character is white space.
pub open spec fn is_space(c: char) -> bool {
    ||| '\u{9}' <= c <= '\u{d}'
    ||| c == ' '
    ||| c == '\u{85}'
    ||| c == '\u{a0}'
    ||| c == '\u{1680}'
    ||| '\u{2000}' <= c <= '\u{200a}'
    ||| c == '\u{2028}'
    ||| c == '\u{2029}'
    ||| c == '\u{202f}'
    ||| c == '\u{205f}'
    ||| c == '\u{3000}'
}

/// The number of white-space characters that a text starts with.
pub open spec fn leading_spaces(s: Seq<char>) -> nat
    decreases s.len(),
{
    if s.len() > 0 && is_space(s[0]) {
        1 + leading_spaces(s.drop_first())
    } else {
        0
    }
}

/// The number of white-space characters that a text ends with.
pub open spec fn trailing_spaces(s: Seq<char>) -> nat
    decreases s.len(),
{
    if s.len() > 0 && is_space(s.last()) {
        1 + trailing_spaces(s.drop_last())
    } else {
        0
    }
}

/// The text without the white space at its start and at its end.
pub open spec fn trimmed(s: Seq<char>) -> Seq<char> {
    let from = leading_spaces(s);
    if from == s.len() {
        Seq::empty()
    } else {
        s.subrange(from as int, s.len() - trailing_spaces(s))
    }
}

/// The number that a text denotes, if a machine word can hold it.
pub open spec fn word_value(s: Seq<char>) -> Option<usize> {
    match unsigned_value(s) {
        Some(value) => if value <= usize::MAX {
            Some(value as usize)
        } else {
            None
        },
        None => None,
    }
}

/// Appends `c` to `text`.
///
/// Calls `String::push` of the standard library, and states what its
/// documentation says: the character is appended to the end of the string.
#[verifier::external_body]
pub(crate) fn push_char(text: &mut String, c: char)
    ensures
        final(text)@ == old(text)@.push(c),
{
    text.push(c);
}

/// Removes the last character of `text` and returns it.
///
/// Calls `String::pop` of the standard library, and states what its
/// documentation says: the last character is removed and returned, and an
/// empty string stays empty and gives `None`.
#[verifier::external_body]
pub(crate) fn pop_char(text: &mut String) -> (last: Option<char>)
    ensures
        old(text)@.len() == 0 ==> last is None && final(text)@ == old(text)@,
        old(text)@.len() > 0 ==> last == Some(old(text)@.last()) && final(text)@ == old(
            text,
        )@.drop_last(),
{
    text.pop()
}

/// A longer run of digits never denotes a smaller number than its start.
proof fn lemma_digits_value_grows(s: Seq<char>, n: int)
    requires
        0 <= n <= s.len(),
    ensures
        digits_value(s.subrange(0, n)) <= digits_value(s),
    decreases s.len() - n,
{
    if n < s.len() {
        lemma_digits_value_grows(s.drop_last(), n);
        assert(s.drop_last().subrange(0, n) =~= s.subrange(0, n));
    } else {
        assert(s.subrange(0, n) =~= s);
    }
}

/// Whether a character is white space.
fn char_is_space(c: char) -> (space: bool)
    ensures
        space == is_space(c),
{
    ('\u{9}' <= c && c <= '\u{d}') || c == ' ' || c == '\u{85}' || c == '\u{a0}' || c
        == '\u{1680}' || ('\u{2000}' <= c && c <= '\u{200a}') || c == '\u{2028}' || c
        == '\u{2029}' || c == '\u{202f}' || c == '\u{205f}' || c == '\u{3000}'
}

/// Reads the number that the characters `from..to` of `text` denote, if they
/// denote one that the result type can hold.
fn parse_range(text: &str, from: usize, to: usize) -> (number: Option<usize>)
    requires
        from <= to <= text@.len(),
    ensures
        number == word_value(text@.subrange(from as int, to as int)),
{
    let ghost whole = text@.subrange(from as int, to as int);
    if from == to {
        return None;
    }
    let start = if text.get_char(from) == '+' {
        from + 1
    } else {
        from
    };
    let ghost body = text@.subrange(start as int, to as int);
    proof {
        if start > from {
            assert(whole[0] == '+');
            assert(body =~= whole.drop_first());
        } else {
            assert(whole[0] != '+');
            assert(body =~= whole);
        }
    }
    if start == to {
        return None;
    }
    let mut value: usize = 0;
    let mut i: usize = start;
    while i < to
        invariant
            from <= start <= i <= to <= text@.len(),
            body == text@.subrange(start as int, to as int),
            unsigned_value(text@.subrange(from as int, to as int)) == if all_digits(body) {
                Some(digits_value(body))
            } else {
                None
            },
            all_digits(body.subrange(0, i - start)),
            value == digits_value(body.subrange(0, i - start)),
        decreases to - i,
    {
        let c = text.get_char(i);
        let ghost seen = body.subrange(0, i - start);
        let ghost next = body.subrange(0, i + 1 - start);
        proof {
            assert(body[i - start] == c);
            assert(next.drop_last() =~= seen);
            assert(next.last() == c);
        }
        if !('0' <= c && c <= '9') {
            proof {
                assert(!is_digit(body[i - start]));
                assert(!all_digits(body));
            }
            return None;
        }
        let digit = (c as u32 - '0' as u32) as usize;
        let grown = match value.checked_mul(10) {
            Some(tens) => tens.checked_add(digit),
            None => None,
        };
        match grown {
            Some(grown) => {
                value = grown;
            },
            None => {
                proof {
                    assert(digit_value(c) == digit);
                    assert(digits_value(next) == value * 10 + digit);
                    assert(digits_value(next) > usize::MAX);
                    lemma_digits_value_grows(body, i + 1 - start);
                    assert(digits_value(body) > usize::MAX);
                }
                return None;
            },
        }
        proof {
            assert forall|j: int| 0 <= j < next.len() implies is_digit(#[trigger] next[j]) by {
                if j < seen.len() {
                    assert(next[j] == seen[j]);
                }
            }
        }
        i += 1;
    }
    proof {
        assert(body.subrange(0, to - start) =~= body);
    }
    Some(value)
}

/// Reads the number that `text` denotes, if it denotes one that the result
/// type can hold.
pub fn parse_unsigned(text: &str) -> (number: Option<usize>)
    ensures
        number == word_value(text@),
{
    let len = text.unicode_len();
    proof {
        assert(text@.subrange(0, len as int) =~= text@);
    }
    parse_range(text, 0, len)
}

/// Reads the number that `text` denotes once the white space around it is
/// taken off, if it denotes one that the result type can hold.
pub fn parse_trimmed(text: &str) -> (number: Option<usize>)
    ensures
        number == word_value(trimmed(text@)),
{
    let len = text.unicode_len();
    let mut from: usize = 0;
    assert(text@.subrange(0, len as int) =~= text@);
    while from < len && char_is_space(text.get_char(from))
        invariant
            from <= len == text@.len(),
            leading_spaces(text@) == from + leading_spaces(text@.subrange(from as int, len as int)),
        decreases len - from,
    {
        proof {
            let rest = text@.subrange(from as int, len as int);
            assert(rest[0] == text@[from as int]);
            assert(rest.drop_first() =~= text@.subrange(from + 1, len as int));
        }
        from += 1;
    }
    proof {
        let rest = text@.subrange(from as int, len as int);
        if from < len {
            assert(rest[0] == text@[from as int]);
        }
        assert(leading_spaces(rest) == 0);
        assert(text@.subrange(0, len as int) =~= text@);
    }
    if from == len {
        proof {
            assert(Seq::<char>::empty().subrange(0, 0) =~= Seq::<char>::empty());
            assert(text@.subrange(from as int, from as int) =~= Seq::<char>::empty());
        }
        return parse_range(text, from, from);
    }
    let mut to: usize = len;
    while to > from && char_is_space(text.get_char(to - 1))
        invariant
            from < to <= len == text@.len(),
            !is_space(text@[from as int]),
            trailing_spaces(text@) == (len - to) + trailing_spaces(text@.subrange(0, to as int)),
        decreases to,
    {
        proof {
            let rest = text@.subrange(0, to as int);
            assert(rest.last() == text@[to - 1]);
            assert(rest.drop_last() =~= text@.subrange(0, to - 1));
        }
        to -= 1;
    }
    proof {
        let rest = text@.subrange(0, to as int);
        assert(rest.last() == text@[to - 1]);
        assert(trailing_spaces(rest) == 0);
    }
    parse_range(text, from, to)
}

} // verus!
