//! Whole numbers as decimal text.

use crate::text::{chars_of, string_from_chars};
use vstd::prelude::*;

verus! {

/// Whether the character is a decimal digit.
pub open spec fn is_digit(symbol: char) -> bool {
    '0' <= symbol && symbol <= '9'
}

/// The number that a decimal digit stands for.
pub open spec fn digit_value(symbol: char) -> int {
    symbol as int - 48
}

/// The digit that stands for a number below ten.
pub open spec fn digit_char(value: int) -> char {
    ((48 + value) as u8) as char
}

/// Whether the text is made of decimal digits.
pub open spec fn all_digits(text: Seq<char>) -> bool {
    forall|k: int| 0 <= k < text.len() ==> is_digit(#[trigger] text[k])
}

/// The number that a text of decimal digits stands for.
pub open spec fn digits_value(digits: Seq<char>) -> int
    decreases digits.len(),
{
    if digits.len() == 0 {
        0
    } else {
        10 * digits_value(digits.drop_last()) + digit_value(digits.last())
    }
}

/// The number that a text stands for: an optional sign and at least one
/// decimal digit, nothing before, between or behind them; `None` where the
/// text is of another form or the number is no `i64`.
pub open spec fn parsed_i64(text: Seq<char>) -> Option<i64> {
    let signed = text.len() > 0 && (text[0] == '-' || text[0] == '+');
    let digits = if signed {
        text.skip(1)
    } else {
        text
    };
    let value = if text.len() > 0 && text[0] == '-' {
        -digits_value(digits)
    } else {
        digits_value(digits)
    };
    if digits.len() == 0 || !all_digits(digits) || value < i64::MIN || value > i64::MAX {
        None
    } else {
        Some(value as i64)
    }
}

/// The decimal digits of a number, without leading zero.
pub open spec fn decimal_digits(value: nat) -> Seq<char>
    decreases value,
{
    if value < 10 {
        seq![digit_char(value as int)]
    } else {
        decimal_digits(value / 10).push(digit_char((value % 10) as int))
    }
}

/// A number as decimal text, with a minus sign where it is negative.
pub open spec fn decimal(value: int) -> Seq<char> {
    if value < 0 {
        seq!['-'] + decimal_digits((-value) as nat)
    } else {
        decimal_digits(value as nat)
    }
}

/// Digits stand for at least what fewer of them stand for.
proof fn lemma_digits_grow(digits: Seq<char>, count: int)
    requires
        all_digits(digits),
        0 <= count <= digits.len(),
    ensures
        0 <= digits_value(digits.take(count)) <= digits_value(digits),
    decreases digits.len() - count,
{
    if count == digits.len() {
        assert(digits.take(count) =~= digits);
        lemma_digits_bound(digits);
    } else {
        lemma_digits_grow(digits, count + 1);
        let longer = digits.take(count + 1);
        assert(longer.drop_last() =~= digits.take(count));
        assert(is_digit(digits[count]));
        assert(longer.last() == digits[count]);
        assert(all_digits(digits.take(count))) by {
            assert forall|k: int| 0 <= k < count implies is_digit(
                #[trigger] digits.take(count)[k],
            ) by {
                assert(digits.take(count)[k] == digits[k]);
            }
        }
        lemma_digits_bound(digits.take(count));
    }
}

/// Digits stand for no negative number.
proof fn lemma_digits_bound(digits: Seq<char>)
    requires
        all_digits(digits),
    ensures
        digits_value(digits) >= 0,
    decreases digits.len(),
{
    if digits.len() > 0 {
        assert(is_digit(digits[digits.len() - 1]));
        assert(all_digits(digits.drop_last())) by {
            assert forall|k: int| 0 <= k < digits.drop_last().len() implies is_digit(
                #[trigger] digits.drop_last()[k],
            ) by {
                assert(digits.drop_last()[k] == digits[k]);
            }
        }
        lemma_digits_bound(digits.drop_last());
    }
}

/// The decimal digits of a number are digits that stand for it.
pub proof fn lemma_decimal_digits(value: nat)
    ensures
        decimal_digits(value).len() >= 1,
        all_digits(decimal_digits(value)),
        digits_value(decimal_digits(value)) == value,
    decreases value,
{
    if value < 10 {
        let digits = decimal_digits(value);
        assert(digits.drop_last() =~= Seq::<char>::empty());
        assert(digits.last() == digit_char(value as int));
        assert(digits_value(digits.drop_last()) == 0);
        assert(digit_value(digit_char(value as int)) == value);
        assert(is_digit(digits[0]));
    } else {
        lemma_decimal_digits(value / 10);
        let front = decimal_digits(value / 10);
        let digits = decimal_digits(value);
        assert(digits.drop_last() =~= front);
        assert(digits.last() == digit_char((value % 10) as int));
        assert(digit_value(digit_char((value % 10) as int)) == value % 10);
        assert(is_digit(digit_char((value % 10) as int)));
        assert forall|k: int| 0 <= k < digits.len() implies is_digit(#[trigger] digits[k]) by {
            if k < front.len() {
                assert(digits[k] == front[k]);
            }
        }
    }
}

/// A number that is written as decimal text is read back from it.
pub proof fn lemma_decimal_is_parsed(value: i64)
    ensures
        parsed_i64(decimal(value as int)) == Some(value),
{
    let text = decimal(value as int);
    if value < 0 {
        lemma_decimal_digits((-value) as nat);
        assert(text[0] == '-');
        assert(text.skip(1) =~= decimal_digits((-value) as nat));
    } else {
        lemma_decimal_digits(value as nat);
        assert(is_digit(text[0]));
    }
}

/// Reads a number from decimal text, as `parsed_i64` defines it.
pub fn parse_i64(text: &str) -> (number: Option<i64>)
    ensures
        number == parsed_i64(text@),
{
    let chars = chars_of(text);
    let negative = chars.len() > 0 && chars[0] == '-';
    let signed = chars.len() > 0 && (chars[0] == '-' || chars[0] == '+');
    let first: usize = if signed {
        1
    } else {
        0
    };
    let ghost digits = chars@.skip(first as int);
    assert(chars@.skip(0) =~= chars@);
    if chars.len() == first {
        return None;
    }
    let mut value: i128 = 0;
    let mut at: usize = first;
    assert(digits.take(0) =~= Seq::<char>::empty());
    while at < chars.len()
        invariant
            first <= at <= chars.len(),
            chars@ == text@,
            chars.len() > first,
            signed == (text@.len() > 0 && (text@[0] == '-' || text@[0] == '+')),
            negative == (text@.len() > 0 && text@[0] == '-'),
            first == if signed { 1int } else { 0int },
            digits == chars@.skip(first as int),
            digits == if signed { text@.skip(1) } else { text@ },
            all_digits(digits.take(at - first)),
            value == digits_value(digits.take(at - first)),
            0 <= value <= 0x8000_0000_0000_0000,
        decreases chars.len() - at,
    {
        let symbol = chars[at];
        let ghost read = digits.take(at - first);
        let ghost longer = digits.take(at - first + 1);
        assert(longer.drop_last() =~= read);
        assert(longer.last() == symbol);
        if !('0' <= symbol && symbol <= '9') {
            assert(!is_digit(digits[at - first]));
            return None;
        }
        assert(all_digits(longer)) by {
            assert forall|k: int| 0 <= k < longer.len() implies is_digit(#[trigger] longer[k]) by {
                if k < read.len() {
                    assert(longer[k] == read[k]);
                }
            }
        }
        assert(digit_value(symbol) == (symbol as u8 - 48) as int);
        value = 10 * value + (symbol as u8 - 48) as i128;
        assert(value == digits_value(longer));
        if value > 0x8000_0000_0000_0000 {
            proof {
                if all_digits(digits) {
                    lemma_digits_grow(digits, at - first + 1);
                    assert(digits_value(digits) > 0x8000_0000_0000_0000);
                }
            }
            return None;
        }
        at += 1;
    }
    assert(digits.take(at - first) =~= digits);
    if negative {
        Some((-value) as i64)
    } else if value > 0x7fff_ffff_ffff_ffff {
        None
    } else {
        Some(value as i64)
    }
}

/// Writes a number as decimal text.
pub fn to_decimal(value: i64) -> (text: String)
    ensures
        text@ == decimal(value as int),
{
    let mut rest: u64 = if value < 0 {
        (-(value as i128)) as u64
    } else {
        value as u64
    };
    let ghost total = rest as nat;
    let mut digits: Vec<char> = Vec::new();
    while rest >= 10
        invariant
            decimal_digits(total) == decimal_digits(rest as nat) + digits@,
        decreases rest,
    {
        let ghost tail = digits@;
        let digit = ((48 + rest % 10) as u8) as char;
        digits.insert(0, digit);
        assert(decimal_digits(rest as nat).push(digit) + tail =~= decimal_digits(rest as nat)
            + seq![digit] + tail);
        assert(digits@ =~= seq![digit] + tail);
        assert(decimal_digits((rest / 10) as nat).push(digit) + tail =~= decimal_digits(
            (rest / 10) as nat,
        ) + digits@);
        rest = rest / 10;
    }
    let ghost tail = digits@;
    digits.insert(0, ((48 + rest) as u8) as char);
    assert(digits@ =~= decimal_digits(rest as nat) + tail);
    if value < 0 {
        let ghost unsigned = digits@;
        digits.insert(0, '-');
        assert(digits@ =~= seq!['-'] + unsigned);
    }
    string_from_chars(&digits)
}

} // verus!
