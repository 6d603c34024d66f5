//! Whole numbers written in decimal.

use vstd::prelude::*;
use vstd::string::StringExecFns;
use crate::text::chars_of;

verus! {

/// `c` is one of the ten ASCII digits.
pub open spec fn is_digit(c: char) -> bool {
    '0' <= c <= '9'
}

/// The value of the digit `c`.
pub open spec fn digit_value(c: char) -> int {
    c as int - '0' as int
}

/// Every character of `text` is a digit.
pub open spec fn all_digits(text: Seq<char>) -> bool {
    forall|i: int| 0 <= i < text.len() ==> is_digit(#[trigger] text[i])
}

/// The number that the digits spell, the empty text spelling zero.
pub open spec fn decimal_value(digits: Seq<char>) -> int
    decreases digits.len(),
{
    if digits.len() == 0 {
        0
    } else {
        decimal_value(digits.drop_last()) * 10 + digit_value(digits.last())
    }
}

/// The digits of `text`: what follows its sign, or all of it where it has no
/// sign.
pub open spec fn unsigned_part(text: Seq<char>) -> Seq<char> {
    if text.len() > 0 && (text[0] == '+' || text[0] == '-') {
        text.skip(1)
    } else {
        text
    }
}

/// The 64-bit integer that `text` spells: an optional `+` or `-`, then one
/// digit or more and nothing else. `None` where the text has another shape or
/// the number does not fit.
pub open spec fn parsed_integer(text: Seq<char>) -> Option<i64> {
    let digits = unsigned_part(text);
    let value = if text.len() > 0 && text[0] == '-' {
        -decimal_value(digits)
    } else {
        decimal_value(digits)
    };
    if digits.len() > 0 && all_digits(digits) && i64::MIN <= value <= i64::MAX {
        Some(value as i64)
    } else {
        None
    }
}

/// The digits spell no less than any of their prefixes does.
pub proof fn lemma_decimal_grows(digits: Seq<char>, k: int)
    requires
        all_digits(digits),
        0 <= k <= digits.len(),
    ensures
        0 <= decimal_value(digits.take(k)) <= decimal_value(digits),
    decreases digits.len() - k,
{
    if k == digits.len() {
        assert(digits.take(k) =~= digits);
        lemma_decimal_nonnegative(digits);
    } else {
        lemma_decimal_grows(digits, k + 1);
        let longer = digits.take(k + 1);
        assert(longer.drop_last() =~= digits.take(k));
        assert(is_digit(digits[k]));
        assert(longer.last() == digits[k]);
        lemma_decimal_nonnegative(digits.take(k));
    }
}

/// Digits spell a number that is not negative.
pub proof fn lemma_decimal_nonnegative(digits: Seq<char>)
    requires
        all_digits(digits),
    ensures
        0 <= decimal_value(digits),
    decreases digits.len(),
{
    if digits.len() > 0 {
        assert(is_digit(digits.last()));
        assert forall|i: int| 0 <= i < digits.drop_last().len() implies is_digit(
            #[trigger] digits.drop_last()[i],
        ) by {
            assert(digits.drop_last()[i] == digits[i]);
        }
        lemma_decimal_nonnegative(digits.drop_last());
    }
}

/// Reads a 64-bit integer written in decimal, with an optional sign.
pub fn parse_integer(text: &str) -> (number: Option<i64>)
    ensures
        number == parsed_integer(text@),
{
    let chars = chars_of(text);
    let n = chars.len();
    if n == 0 {
        return None;
    }
    let negative = chars[0] == '-';
    let from: usize = if chars[0] == '-' || chars[0] == '+' {
        1
    } else {
        0
    };
    let ghost digits = unsigned_part(text@);
    assert(digits =~= chars@.skip(from as int));
    if from == n {
        return None;
    }
    // The magnitude, which may reach 2^63 for the smallest integer.
    let limit: u64 = 9_223_372_036_854_775_808;
    let mut magnitude: u64 = 0;
    let mut at: usize = from;
    assert(digits.take(0) =~= Seq::<char>::empty());
    while at < n
        invariant
            from <= at <= n,
            n == chars.len(),
            digits == chars@.skip(from as int),
            digits == unsigned_part(text@),
            all_digits(digits.take(at - from)),
            magnitude == decimal_value(digits.take(at - from)),
            magnitude <= limit,
            limit == 9_223_372_036_854_775_808,
        decreases n - at,
    {
        let c = chars[at];
        let ghost longer = digits.take(at - from + 1);
        proof {
            assert(longer.drop_last() =~= digits.take(at - from));
            assert(longer.last() == c);
        }
        if c < '0' || c > '9' {
            proof {
                assert(digits[at - from] == c);
                assert(!is_digit(digits[at - from]));
                assert(!all_digits(digits));
            }
            return None;
        }
        let digit: u64 = (c as u32 - '0' as u32) as u64;
        assert(digit == digit_value(c));
        assert forall|i: int| 0 <= i < longer.len() implies is_digit(#[trigger] longer[i]) by {
            if i < longer.len() - 1 {
                assert(longer[i] == digits.take(at - from)[i]);
            }
        }
        if magnitude > (limit - digit) / 10 {
            proof {
                assert(magnitude * 10 + digit > limit);
                assert(decimal_value(longer) == magnitude * 10 + digit);
                if all_digits(digits) {
                    lemma_decimal_grows(digits, at - from + 1);
                    assert(decimal_value(digits) > limit);
                }
            }
            return None;
        }
        magnitude = magnitude * 10 + digit;
        at += 1;
    }
    assert(digits.take(n - from) =~= digits);
    if negative {
        if magnitude == limit {
            Some(i64::MIN)
        } else {
            Some(-(magnitude as i64))
        }
    } else {
        if magnitude == limit {
            None
        } else {
            Some(magnitude as i64)
        }
    }
}

/// The character for a digit below ten.
pub open spec fn digit_char(digit: nat) -> char {
    if digit == 0 {
        '0'
    } else if digit == 1 {
        '1'
    } else if digit == 2 {
        '2'
    } else if digit == 3 {
        '3'
    } else if digit == 4 {
        '4'
    } else if digit == 5 {
        '5'
    } else if digit == 6 {
        '6'
    } else if digit == 7 {
        '7'
    } else if digit == 8 {
        '8'
    } else {
        '9'
    }
}

/// The number in decimal, without a sign and without leading zeros.
pub open spec fn decimal_text(number: nat) -> Seq<char>
    decreases number,
{
    if number < 10 {
        seq![digit_char(number)]
    } else {
        decimal_text(number / 10) + seq![digit_char(number % 10)]
    }
}

/// The text of one digit.
fn digit_text(digit: u64) -> (text: &'static str)
    requires
        digit < 10,
    ensures
        text@ == seq![digit_char(digit as nat)],
{
    proof {
        reveal_strlit("0");
        reveal_strlit("1");
        reveal_strlit("2");
        reveal_strlit("3");
        reveal_strlit("4");
        reveal_strlit("5");
        reveal_strlit("6");
        reveal_strlit("7");
        reveal_strlit("8");
        reveal_strlit("9");
    }
    let text = if digit == 0 {
        "0"
    } else if digit == 1 {
        "1"
    } else if digit == 2 {
        "2"
    } else if digit == 3 {
        "3"
    } else if digit == 4 {
        "4"
    } else if digit == 5 {
        "5"
    } else if digit == 6 {
        "6"
    } else if digit == 7 {
        "7"
    } else if digit == 8 {
        "8"
    } else {
        "9"
    };
    assert(text@ =~= seq![digit_char(digit as nat)]);
    text
}

/// Writes a number in decimal.
pub fn number_text(number: u64) -> (text: String)
    ensures
        text@ == decimal_text(number as nat),
    decreases number,
{
    if number < 10 {
        String::from_str(digit_text(number))
    } else {
        let mut text = number_text(number / 10);
        text.append(digit_text(number % 10));
        text
    }
}

/// Writes a counter in decimal.
pub fn count_text(number: u32) -> (text: String)
    ensures
        text@ == decimal_text(number as nat),
{
    number_text(number as u64)
}

/// The whole number in decimal, with a minus sign where it is negative.
pub open spec fn integer_text(number: int) -> Seq<char> {
    if number < 0 {
        seq!['-'] + decimal_text((-number) as nat)
    } else {
        decimal_text(number as nat)
    }
}

/// Writes a whole number in decimal.
pub fn whole_text(number: i64) -> (text: String)
    ensures
        text@ == integer_text(number as int),
{
    if number < 0 {
        proof {
            reveal_strlit("-");
            assert("-"@ =~= seq!['-']);
        }
        let magnitude: u64 = (-(number + 1)) as u64 + 1;
        String::from_str("-").concat(number_text(magnitude).as_str())
    } else {
        number_text(number as u64)
    }
}

} // verus!
