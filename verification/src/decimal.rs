//! Whole numbers in decimal notation.

use crate::text::to_chars;
use vstd::prelude::*;
use vstd::string::*;

verus! {

/// The character for one decimal digit.
pub open spec fn digit(d: nat) -> char {
    ('0' as int + d) as char
}

/// Whether a character is a decimal digit.
pub open spec fn is_digit(c: char) -> bool {
    '0' <= c <= '9'
}

/// The decimal notation of `n`.
pub open spec fn decimal(n: nat) -> Seq<char>
    decreases n,
{
    if n < 10 {
        seq![digit(n)]
    } else {
        decimal(n / 10).push(digit(n % 10))
    }
}

/// The decimal notation of `n`, with a zero in front where it would be a single digit.
pub open spec fn decimal2(n: nat) -> Seq<char> {
    if n < 10 {
        seq!['0', digit(n)]
    } else {
        decimal(n)
    }
}

/// The number that a sequence of digits spells.
pub open spec fn digits_value(text: Seq<char>) -> nat
    decreases text.len(),
{
    if text.len() == 0 {
        0
    } else {
        digits_value(text.drop_last()) * 10 + (text.last() as int - '0' as int) as nat
    }
}

/// Whether text is made up of digits, at least one.
pub open spec fn all_digits(text: Seq<char>) -> bool {
    text.len() > 0 && forall|i: int| 0 <= i < text.len() ==> is_digit(#[trigger] text[i])
}

/// What follows the plus sign that `text` may start with.
pub open spec fn unsigned_part(text: Seq<char>) -> Seq<char> {
    if text.len() > 0 && text[0] == '+' {
        text.drop_first()
    } else {
        text
    }
}

/// The number not above `max` that text spells: digits, which a plus sign may precede.
pub open spec fn parsed(text: Seq<char>, max: nat) -> Option<nat> {
    let digits = unsigned_part(text);
    if all_digits(digits) && digits_value(digits) <= max {
        Some(digits_value(digits))
    } else {
        None
    }
}

/// The text of one digit.
fn digit_text(d: u64) -> (text: &'static str)
    requires
        d < 10,
    ensures
        text@ == seq![digit(d as nat)],
{
    proof {
        reveal_strlit("0");
        reveal_strlit("1");
        reveal_strlit("2");
        reveal_strlit("3");
        reveal_strlit("4");
        reveal_strlit("5");
        reveal_strlit("6");
        reveal_strlit("7");
        reveal_strlit("8");
        reveal_strlit("9");
    }
    let text = if d == 0 {
        "0"
    } else if d == 1 {
        "1"
    } else if d == 2 {
        "2"
    } else if d == 3 {
        "3"
    } else if d == 4 {
        "4"
    } else if d == 5 {
        "5"
    } else if d == 6 {
        "6"
    } else if d == 7 {
        "7"
    } else if d == 8 {
        "8"
    } else {
        "9"
    };
    assert(text@ =~= seq![digit(d as nat)]);
    text
}

/// Writes `n` in decimal notation.
pub fn decimal_text(n: u64) -> (text: String)
    ensures
        text@ == decimal(n as nat),
    decreases n,
{
    if n < 10 {
        digit_text(n).to_owned()
    } else {
        let mut text: String = decimal_text(n / 10);
        text.append(digit_text(n % 10));
        assert(text@ =~= decimal(n as nat));
        text
    }
}

/// Writes `n` in decimal notation with at least two digits.
pub fn decimal2_text(n: u64) -> (text: String)
    ensures
        text@ == decimal2(n as nat),
{
    if n < 10 {
        let mut text: String = "0".to_owned();
        proof {
            reveal_strlit("0");
        }
        text.append(digit_text(n));
        assert(text@ =~= decimal2(n as nat));
        text
    } else {
        decimal_text(n)
    }
}

proof fn lemma_prefix_value_not_above(text: Seq<char>, n: int)
    requires
        0 <= n <= text.len(),
    ensures
        digits_value(text.subrange(0, n)) <= digits_value(text),
    decreases text.len() - n,
{
    if n == text.len() {
        assert(text.subrange(0, n) =~= text);
    } else {
        lemma_prefix_value_not_above(text, n + 1);
        let next = text.subrange(0, n + 1);
        assert(next.drop_last() =~= text.subrange(0, n));
    }
}

/// Reads the number that `s` spells, if it is one that a `u64` holds.
pub fn parse_u64(s: &str) -> (number: Option<u64>)
    ensures
        match number {
            Some(n) => parsed(s@, u64::MAX as nat) == Some(n as nat),
            None => parsed(s@, u64::MAX as nat) is None,
        },
{
    let chars = to_chars(s);
    let start: usize = if chars.len() > 0 && chars[0] == '+' {
        1
    } else {
        0
    };
    let ghost digits = unsigned_part(s@);
    proof {
        assert(digits =~= s@.subrange(start as int, s@.len() as int));
    }
    if chars.len() == start {
        return None;
    }
    let mut value: u64 = 0;
    let mut i: usize = start;
    assert(digits.subrange(0, 0) =~= seq![]);
    while i < chars.len()
        invariant
            chars@ == s@,
            digits == unsigned_part(s@),
            start <= i <= s@.len(),
            start < s@.len(),
            digits =~= s@.subrange(start as int, s@.len() as int),
            forall|j: int| 0 <= j < i - start ==> is_digit(#[trigger] digits[j]),
            value == digits_value(digits.subrange(0, i - start)),
        decreases s@.len() - i,
    {
        let c = chars[i];
        assert(digits[i - start] == c);
        if !('0' <= c && c <= '9') {
            assert(!is_digit(digits[i - start]));
            return None;
        }
        let d: u64 = c as u64 - '0' as u64;
        proof {
            let next = digits.subrange(0, i - start + 1);
            assert(next.drop_last() =~= digits.subrange(0, i - start));
            assert(digits_value(next) == value * 10 + d);
            lemma_prefix_value_not_above(digits, i - start + 1);
        }
        if value > u64::MAX / 10 || d > u64::MAX - value * 10 {
            return None;
        }
        value = value * 10 + d;
        i += 1;
    }
    assert(digits.subrange(0, digits.len() as int) =~= digits);
    Some(value)
}

/// Reads the number that `s` spells, if it is one that a `u32` holds.
pub fn parse_u32(s: &str) -> (number: Option<u32>)
    ensures
        match number {
            Some(n) => parsed(s@, u32::MAX as nat) == Some(n as nat),
            None => parsed(s@, u32::MAX as nat) is None,
        },
{
    match parse_u64(s) {
        Some(n) => if n <= u32::MAX as u64 {
            Some(n as u32)
        } else {
            None
        },
        None => None,
    }
}

proof fn lemma_decimal_is_digits(n: nat)
    ensures
        all_digits(decimal(n)),
        digits_value(decimal(n)) == n,
    decreases n,
{
    if n < 10 {
        let text = decimal(n);
        assert(text.drop_last() =~= seq![]);
        assert(text.last() == digit(n));
        assert(digits_value(text.drop_last()) == 0);
    } else {
        lemma_decimal_is_digits(n / 10);
        let text = decimal(n);
        assert(text.drop_last() =~= decimal(n / 10));
        assert(text.last() == digit(n % 10));
        assert forall|i: int| 0 <= i < text.len() implies is_digit(#[trigger] text[i]) by {
            if i < text.len() - 1 {
                assert(text[i] == decimal(n / 10)[i]);
            }
        }
    }
}

/// A number in decimal notation reads back as that number.
pub proof fn lemma_decimal_reads_back(n: nat, max: nat)
    requires
        n <= max,
    ensures
        parsed(decimal(n), max) == Some(n),
        all_digits(decimal(n)),
{
    lemma_decimal_is_digits(n);
    assert(is_digit(decimal(n)[0]));
}

/// A number is written without leading zeros, and one digit more stands for ten times as much and
/// that digit.
pub proof fn lemma_decimal_grows(n: nat, d: nat)
    requires
        d < 10,
    ensures
        decimal(d) == seq![('0' as int + d) as char],
        n > 0 ==> decimal(10 * n + d) == decimal(n).push(('0' as int + d) as char),
{
    if n > 0 {
        assert((10 * n + d) / 10 == n);
        assert((10 * n + d) % 10 == d);
    }
}

/// Two digits are written of every number below one hundred.
pub proof fn lemma_two_digits(n: nat)
    ensures
        n < 100 ==> decimal2(n).len() == 2,
        n < 10 ==> decimal2(n) == seq!['0'] + decimal(n),
        n >= 10 ==> decimal2(n) == decimal(n),
{
    if 10 <= n < 100 {
        assert(decimal(n / 10).len() == 1);
    }
    assert(n < 10 ==> decimal2(n) =~= seq!['0'] + decimal(n));
}

/// A digit behind others makes ten times as much of them and adds itself.
pub proof fn lemma_value_grows(digits: Seq<char>, d: nat)
    requires
        d < 10,
    ensures
        digits_value(Seq::empty()) == 0,
        digits_value(digits.push(('0' as int + d) as char)) == 10 * digits_value(digits) + d,
{
    let all = digits.push(('0' as int + d) as char);
    assert(all.drop_last() =~= digits);
}

/// Digits are read as the number that they spell, unless it is above the limit; a plus sign in
/// front of them changes nothing.
pub proof fn lemma_digits_are_read(digits: Seq<char>, max: nat)
    requires
        digits.len() > 0,
        forall|i: int| 0 <= i < digits.len() ==> '0' <= #[trigger] digits[i] <= '9',
    ensures
        digits_value(digits) <= max ==> parsed(digits, max) == Some(digits_value(digits)),
        digits_value(digits) > max ==> parsed(digits, max) is None,
        parsed(seq!['+'] + digits, max) == parsed(digits, max),
{
    assert('0' <= digits[0]);
    assert((seq!['+'] + digits).drop_first() =~= digits);
    assert(all_digits(digits));
}

/// Nothing else is read as a number.
pub proof fn lemma_only_digits_are_read(text: Seq<char>, max: nat)
    requires
        parsed(text, max) is Some,
    ensures
        text.len() > 0,
        '0' <= text[0] <= '9' || (text[0] == '+' && text.len() > 1),
        forall|i: int| 1 <= i < text.len() ==> '0' <= #[trigger] text[i] <= '9',
{
    let part = unsigned_part(text);
    assert(is_digit(part[0]));
    assert forall|i: int| 1 <= i < text.len() implies '0' <= #[trigger] text[i] <= '9' by {
        if text[0] == '+' {
            assert(is_digit(part[i - 1]));
        } else {
            assert(is_digit(part[i]));
        }
    }
}

} // verus!
