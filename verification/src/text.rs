//! Text as sequences of characters: decoding, case folding, decimal numbers
//! and joining lines.

use std::str::Utf8Error;
use vstd::prelude::*;
use vstd::utf8::*;

verus! {

/// The lower-case form of a text, as `str::to_lowercase` gives it.
pub uninterp spec fn lowercase(text: Seq<char>) -> Seq<char>;

/// `str::to_lowercase` returns the lower-case equivalent of the string. It
/// follows the Unicode tables of the standard library, so the result is
/// named here, not spelled out.
pub assume_specification[ str::to_lowercase ](s: &str) -> (folded: String)
    ensures
        folded@ == lowercase(s@),
;

/// The error of `std::str::from_utf8`; nothing is read from it.
#[verifier::external_type_specification]
#[verifier::external_body]
pub struct ExUtf8Error(Utf8Error);

/// `std::str::from_utf8` accepts a byte slice exactly when it is valid UTF-8,
/// and the string it returns holds the characters that the bytes encode.
pub assume_specification[ std::str::from_utf8 ](v: &[u8]) -> (r: Result<&str, Utf8Error>)
    ensures
        r is Ok <==> valid_utf8(v@),
        r matches Ok(s) ==> s@ == decode_utf8(v@),
;

/// `String::push` appends the character to the end of the string.
pub assume_specification[ String::push ](s: &mut String, ch: char)
    ensures
        final(s)@ == old(s)@.push(ch),
;

/// The characters of each string.
pub open spec fn texts(strings: Seq<String>) -> Seq<Seq<char>> {
    Seq::new(strings.len(), |i: int| strings[i]@)
}

/// The decimal digit for `d`, which is below ten.
pub open spec fn digit(d: nat) -> char {
    if d == 0 {
        '0'
    } else if d == 1 {
        '1'
    } else if d == 2 {
        '2'
    } else if d == 3 {
        '3'
    } else if d == 4 {
        '4'
    } else if d == 5 {
        '5'
    } else if d == 6 {
        '6'
    } else if d == 7 {
        '7'
    } else if d == 8 {
        '8'
    } else {
        '9'
    }
}

/// A number in decimal digits, without sign or leading zeros.
pub open spec fn decimal(n: nat) -> Seq<char>
    decreases n,
{
    if n < 10 {
        seq![digit(n)]
    } else {
        decimal(n / 10).push(digit(n % 10))
    }
}

/// The text of one decimal digit.
fn digit_str(d: usize) -> (s: &'static str)
    requires
        d < 10,
    ensures
        s@ == seq![digit(d as nat)],
{
    proof {
        reveal_strlit("0");
        reveal_strlit("1");
        reveal_strlit("2");
        reveal_strlit("3");
        reveal_strlit("4");
        reveal_strlit("5");
        reveal_strlit("6");
        reveal_strlit("7");
        reveal_strlit("8");
        reveal_strlit("9");
    }
    let s = if d == 0 {
        "0"
    } else if d == 1 {
        "1"
    } else if d == 2 {
        "2"
    } else if d == 3 {
        "3"
    } else if d == 4 {
        "4"
    } else if d == 5 {
        "5"
    } else if d == 6 {
        "6"
    } else if d == 7 {
        "7"
    } else if d == 8 {
        "8"
    } else {
        "9"
    };
    assert(s@ =~= seq![digit(d as nat)]);
    s
}

/// Appends `n` in decimal digits to `s`.
pub fn push_decimal(s: &mut String, n: usize)
    ensures
        final(s)@ == old(s)@ + decimal(n as nat),
    decreases n,
{
    if n >= 10 {
        push_decimal(s, n / 10);
    }
    s.append(digit_str(n % 10));
    proof {
        if n >= 10 {
            assert(s@ =~= old(s)@ + decimal((n / 10) as nat).push(digit((n % 10) as nat)));
        } else {
            assert(s@ =~= old(s)@ + seq![digit(n as nat)]);
        }
    }
}

/// `n` in decimal digits.
pub fn decimal_string(n: usize) -> (s: String)
    ensures
        s@ == decimal(n as nat),
{
    let mut s = String::new();
    push_decimal(&mut s, n);
    assert(s@ =~= decimal(n as nat));
    s
}

/// The lines with one line feed between each two of them, and none at the
/// end.
pub open spec fn joined(lines: Seq<Seq<char>>) -> Seq<char>
    decreases lines.len(),
{
    if lines.len() == 0 {
        Seq::empty()
    } else if lines.len() == 1 {
        lines[0]
    } else {
        joined(lines.drop_last()) + seq!['\n'] + lines.last()
    }
}

/// Joins the lines with line feeds.
pub fn join_lines(lines: &Vec<String>) -> (s: String)
    ensures
        s@ == joined(texts(lines@)),
{
    let mut s = String::new();
    let mut i: usize = 0;
    while i < lines.len()
        invariant
            i <= lines.len(),
            s@ == joined(texts(lines@).take(i as int)),
        decreases lines.len() - i,
    {
        let ghost prefix = texts(lines@).take(i as int);
        let ghost next = texts(lines@).take(i + 1);
        proof {
            assert(next.drop_last() =~= prefix);
            assert(next.last() == lines@[i as int]@);
            reveal_strlit("\n");
        }
        if i > 0 {
            s.append("\n");
            assert(s@ =~= joined(prefix) + seq!['\n']);
        } else {
            assert(prefix.len() == 0);
        }
        s.append(lines[i].as_str());
        i = i + 1;
    }
    assert(texts(lines@).take(i as int) =~= texts(lines@));
    s
}

/// The character is one of the ten decimal digits.
pub open spec fn is_digit(c: char) -> bool {
    '0' <= c <= '9'
}

/// The number that a decimal digit stands for.
pub open spec fn digit_value(c: char) -> nat {
    (c as u32 - '0' as u32) as nat
}

/// The number that a sequence of decimal digits stands for.
pub open spec fn digits_value(digits: Seq<char>) -> nat
    decreases digits.len(),
{
    if digits.len() == 0 {
        0
    } else {
        digits_value(digits.drop_last()) * 10 + digit_value(digits.last())
    }
}

/// The text without the plus sign that may stand before the digits.
pub open spec fn unsigned_part(text: Seq<char>) -> Seq<char> {
    if text.len() > 0 && text[0] == '+' {
        text.skip(1)
    } else {
        text
    }
}

/// The number that a text stands for: one or more decimal digits, with a
/// plus sign before them or without, whose value fits in `usize`. Any other
/// text stands for no number.
pub open spec fn parsed_number(text: Seq<char>) -> Option<usize> {
    let digits = unsigned_part(text);
    if digits.len() > 0 && (forall|i: int| 0 <= i < digits.len() ==> is_digit(#[trigger] digits[i]))
        && digits_value(digits) <= usize::MAX {
        Some(digits_value(digits) as usize)
    } else {
        None
    }
}

/// A number is at least what its leading digits stand for.
proof fn lemma_digits_value_prefix(digits: Seq<char>, n: int)
    requires
        0 <= n <= digits.len(),
    ensures
        digits_value(digits.take(n)) <= digits_value(digits),
    decreases digits.len() - n,
{
    if n < digits.len() {
        lemma_digits_value_prefix(digits, n + 1);
        assert(digits.take(n + 1).drop_last() =~= digits.take(n));
    } else {
        assert(digits.take(n) =~= digits);
    }
}

/// Reads a number as `parsed_number` describes it.
pub fn parse_number(text: &str) -> (r: Option<usize>)
    ensures
        r == parsed_number(text@),
{
    let ghost digits = unsigned_part(text@);
    let ghost mut seen: int = 0;
    let mut value: usize = 0;
    let mut first = true;
    let mut any = false;
    for c in it: text.chars()
        invariant
            it.seq() == text@,
            digits == unsigned_part(text@),
            first == (it.index() == 0),
            any == (seen > 0),
            0 <= seen <= it.index(),
            it.index() > 0 ==> it.index() - seen == text@.len() - digits.len(),
            forall|i: int| 0 <= i < seen ==> is_digit(#[trigger] digits[i]),
            value == digits_value(digits.take(seen)),
    {
        if first && c == '+' {
            first = false;
        } else {
            first = false;
            if !('0' <= c && c <= '9') {
                assert(!is_digit(digits[seen]));
                return None;
            }
            let d = (c as u32 - '0' as u32) as usize;
            proof {
                assert(digits.take(seen + 1).drop_last() =~= digits.take(seen));
                lemma_digits_value_prefix(digits, seen + 1);
            }
            let scaled = match value.checked_mul(10) {
                Some(x) => x,
                None => {
                    return None;
                },
            };
            value = match scaled.checked_add(d) {
                Some(x) => x,
                None => {
                    return None;
                },
            };
            any = true;
            proof {
                seen = seen + 1;
            }
        }
    }
    assert(digits.take(seen) =~= digits);
    if any {
        Some(value)
    } else {
        None
    }
}

} // verus!
