//! Decimal numbers as text.

use vstd::prelude::*;

use crate::text::chars_of;

verus! {

/// Whether a character is one of `0` to `9`.
pub open spec fn is_digit(ch: char) -> bool {
    '0' <= ch && ch <= '9'
}

/// The value of a digit.
pub open spec fn digit_value(ch: char) -> int {
    ch as int - '0' as int
}

/// Whether every character is a digit.
pub open spec fn all_digits(text: Seq<char>) -> bool {
    forall|i: int| 0 <= i < text.len() ==> is_digit(#[trigger] text[i])
}

/// The number that a row of digits stands for.
pub open spec fn digits_value(text: Seq<char>) -> int
    decreases text.len(),
{
    if text.len() == 0 {
        0
    } else {
        digits_value(text.drop_last()) * 10 + digit_value(text.last())
    }
}

/// The digits of an unsigned number: an optional `+`, then at least one digit.
pub open spec fn unsigned_digits(text: Seq<char>) -> Seq<char> {
    if text.len() > 1 && text[0] == '+' {
        text.drop_first()
    } else {
        text
    }
}

/// The number that a text stands for, where it is one of at most `max`.
pub open spec fn unsigned(text: Seq<char>, max: int) -> Option<int> {
    let digits = unsigned_digits(text);
    if digits.len() > 0 && all_digits(digits) && digits_value(digits) <= max {
        Some(digits_value(digits))
    } else {
        None
    }
}

/// A row of digits is never negative, and only grows to the right.
pub proof fn digits_value_grows(text: Seq<char>, at: int)
    requires
        all_digits(text),
        0 <= at <= text.len(),
    ensures
        0 <= digits_value(text.take(at)) <= digits_value(text),
    decreases text.len(),
{
    if at == text.len() {
        assert(text.take(at) =~= text);
        if text.len() > 0 {
            let shorter = text.drop_last();
            assert(all_digits(shorter));
            digits_value_grows(shorter, shorter.len() as int);
            assert(shorter.take(shorter.len() as int) =~= shorter);
        }
    } else {
        let shorter = text.drop_last();
        assert(all_digits(shorter));
        digits_value_grows(shorter, at);
        assert(shorter.take(at) =~= text.take(at));
        digits_value_grows(shorter, shorter.len() as int);
        assert(shorter.take(shorter.len() as int) =~= shorter);
    }
}

/// Reads an unsigned number of at most `max`.
pub fn parse_unsigned(text: &str, max: u64) -> (number: Option<u64>)
    ensures
        match number {
            Some(value) => unsigned(text@, max as int) == Some(value as int),
            None => unsigned(text@, max as int) is None,
        },
{
    let chars = chars_of(text);
    let start: usize = if chars.len() > 1 && chars[0] == '+' {
        1
    } else {
        0
    };
    let ghost digits = unsigned_digits(text@);
    proof {
        assert(digits =~= chars@.subrange(start as int, chars@.len() as int));
    }
    if start == chars.len() {
        return None;
    }
    let mut value: u64 = 0;
    let mut i: usize = start;
    while i < chars.len()
        invariant
            start <= i <= chars.len(),
            digits == chars@.subrange(start as int, chars@.len() as int),
            digits == unsigned_digits(text@),
            all_digits(digits.take(i - start)),
            value == digits_value(digits.take(i - start)),
            value <= max,
        decreases chars.len() - i,
    {
        let ch = chars[i];
        proof {
            assert(digits[i - start] == ch);
            assert(digits.take(i - start + 1).drop_last() =~= digits.take(i - start));
        }
        if ch < '0' || ch > '9' {
            return None;
        }
        let digit: u64 = (ch as u32 - '0' as u32) as u64;
        proof {
            let longer = digits.take(i - start + 1);
            assert forall|j: int| 0 <= j < longer.len() implies is_digit(#[trigger] longer[j]) by {
                if j < i - start {
                    assert(digits.take(i - start)[j] == longer[j]);
                }
            }
            assert(digits_value(longer) == value * 10 + digit);
            if value * 10 + digit > max {
                if all_digits(digits) {
                    digits_value_grows(digits, i - start + 1);
                }
            }
        }
        if value > max / 10 {
            return None;
        }
        let tens: u64 = value * 10;
        if digit > max - tens {
            return None;
        }
        value = tens + digit;
        i = i + 1;
    }
    proof {
        assert(digits.take(i - start) =~= digits);
    }
    Some(value)
}

/// The digit of a number below ten.
pub open spec fn digit_char(value: int) -> char {
    ('0' as u32 + value) as char
}

/// A number in decimal.
pub open spec fn decimal_of(value: nat) -> Seq<char>
    decreases value,
{
    if value < 10 {
        seq![digit_char(value as int)]
    } else {
        decimal_of(value / 10).push(digit_char((value % 10) as int))
    }
}

/// The digit of a number below ten.
fn digit_of(value: u64) -> (ch: char)
    requires
        value < 10,
    ensures
        ch == digit_char(value as int),
        is_digit(ch),
        digit_value(ch) == value,
{
    match value {
        0 => '0',
        1 => '1',
        2 => '2',
        3 => '3',
        4 => '4',
        5 => '5',
        6 => '6',
        7 => '7',
        8 => '8',
        _ => '9',
    }
}

/// A number in decimal.
pub fn decimal(value: u64) -> (text: String)
    ensures
        text@ == decimal_of(value as nat),
    decreases value,
{
    if value < 10 {
        let mut out = String::new();
        out.push(digit_of(value));
        proof {
            assert(out@ =~= seq![digit_char(value as int)]);
        }
        out
    } else {
        let mut out = decimal(value / 10);
        out.push(digit_of(value % 10));
        out
    }
}

/// The decimal text of a number holds digits alone, and reads back as it.
pub proof fn decimal_reads_back(value: nat)
    ensures
        all_digits(decimal_of(value)),
        decimal_of(value).len() > 0,
        digits_value(decimal_of(value)) == value,
    decreases value,
{
    let text = decimal_of(value);
    if value < 10 {
        assert(text.drop_last() =~= Seq::<char>::empty());
        assert(digits_value(text.drop_last()) == 0);
    } else {
        decimal_reads_back(value / 10);
        assert(text.drop_last() =~= decimal_of(value / 10));
        assert forall|i: int| 0 <= i < text.len() implies is_digit(#[trigger] text[i]) by {
            if i < text.len() - 1 {
                assert(text[i] == decimal_of(value / 10)[i]);
            }
        }
    }
}

/// A number of at most `max`, written in decimal, is read back unchanged.
pub proof fn decimal_round_trip(value: nat, max: int)
    requires
        value <= max,
    ensures
        unsigned(decimal_of(value), max) == Some(value as int),
{
    decimal_reads_back(value);
    assert(is_digit(decimal_of(value)[0]));
}

/// A power of ten.
pub open spec fn ten_to(exponent: nat) -> nat
    decreases exponent,
{
    if exponent == 0 {
        1
    } else {
        10 * ten_to((exponent - 1) as nat)
    }
}

proof fn decimal_is_short(value: nat, digits: nat)
    requires
        digits >= 1,
        value < ten_to(digits),
    ensures
        1 <= decimal_of(value).len() <= digits,
    decreases digits,
{
    reveal_with_fuel(ten_to, 2);
    if value >= 10 {
        decimal_is_short(value / 10, (digits - 1) as nat);
    }
}

/// A number of 64 bits has at most twenty digits.
pub proof fn decimal_length(value: u64)
    ensures
        1 <= decimal_of(value as nat).len() <= 20,
{
    assert(ten_to(20) == 100_000_000_000_000_000_000) by {
        reveal_with_fuel(ten_to, 21);
    }
    decimal_is_short(value as nat, 20);
}

/// The last digit of a number is what is left over ten, behind the digits of the rest; a
/// number has no zero before it.
pub proof fn decimals_have_their_digits(value: nat)
    ensures
        value >= 10 ==> decimal_of(value).drop_last() == decimal_of(value / 10),
        decimal_of(value).last() as int == '0' as int + value % 10,
        value > 0 ==> decimal_of(value)[0] != '0',
        decimal_of(0) == seq!['0'],
    decreases value,
{
    if value >= 10 {
        decimals_have_their_digits(value / 10);
        decimal_reads_back(value / 10);
        assert(decimal_of(value).drop_last() =~= decimal_of(value / 10));
        assert(decimal_of(value)[0] == decimal_of(value / 10)[0]);
    } else {
        assert(decimal_of(0) =~= seq!['0']);
    }
}

/// What is no number is not read as one, and neither is a number that is too great; a plus
/// may stand before a number.
pub proof fn only_numbers_are_read(text: Seq<char>, value: nat, max: int, i: int)
    ensures
        unsigned(Seq::<char>::empty(), max) is None,
        0 < i < text.len() && !('0' <= text[i] <= '9') ==> unsigned(text, max) is None,
        text.len() > 0 && text[0] != '+' && !('0' <= text[0] <= '9') ==> unsigned(text, max) is None,
        value > max ==> unsigned(decimal_of(value), max) is None,
        value <= max ==> unsigned(seq!['+'] + decimal_of(value), max) == Some(value as int),
{
    decimal_reads_back(value);
    let plus = seq!['+'] + decimal_of(value);
    assert(plus.drop_first() =~= decimal_of(value));
    assert(is_digit(decimal_of(value)[0]));
    if 0 < i < text.len() && !('0' <= text[i] <= '9') {
        let digits = unsigned_digits(text);
        if all_digits(digits) {
            if text.len() > 1 && text[0] == '+' {
                assert(is_digit(digits[i - 1]));
            } else {
                assert(is_digit(digits[i]));
            }
        }
    }
    if text.len() > 0 && text[0] != '+' && !('0' <= text[0] <= '9') {
        if all_digits(text) {
            assert(is_digit(text[0]));
        }
    }
}

} // verus!
