use kebisafe::number::{parse_i64, to_decimal};

#[test]
fn decimal_text_is_read_as_its_number() {
    assert_eq!(parse_i64("0"), Some(0));
    assert_eq!(parse_i64("7"), Some(7));
    assert_eq!(parse_i64("1700000000"), Some(1_700_000_000));
    assert_eq!(parse_i64("-42"), Some(-42));
    assert_eq!(parse_i64("+42"), Some(42));
    assert_eq!(parse_i64("007"), Some(7));
    assert_eq!(parse_i64("-0"), Some(0));
}

#[test]
fn limits_of_the_range_are_read() {
    assert_eq!(parse_i64("9223372036854775807"), Some(i64::MAX));
    assert_eq!(parse_i64("-9223372036854775808"), Some(i64::MIN));
    assert_eq!(parse_i64("00000000000000000000000009223372036854775807"), Some(i64::MAX));
}

#[test]
fn numbers_beyond_the_range_are_refused() {
    assert_eq!(parse_i64("9223372036854775808"), None);
    assert_eq!(parse_i64("+9223372036854775808"), None);
    assert_eq!(parse_i64("-9223372036854775809"), None);
    assert_eq!(parse_i64("99999999999999999999999999999999999999999999"), None);
    assert_eq!(parse_i64("-99999999999999999999999999999999999999999999"), None);
}

#[test]
fn text_of_another_form_is_refused() {
    for text in ["", "+", "-", " 1", "1 ", "1.0", "1e3", "--1", "+-1", "1-", "0x10", "١٢٣", "1_000", "12a", "a12"] {
        assert_eq!(parse_i64(text), None, "{text:?}");
    }
}

#[test]
fn reading_agrees_with_the_standard_library() {
    let texts = [
        "", "0", "-0", "+0", "1", "-1", "+1", "10", "0010", "9223372036854775807",
        "9223372036854775808", "-9223372036854775808", "-9223372036854775809", "92233720368547758070",
        "abc", "12c", "+", "-", "+-3", " 5", "5 ", "５", "1\u{0}",
    ];
    for text in texts {
        assert_eq!(parse_i64(text), text.parse::<i64>().ok(), "{text:?}");
    }
}

#[test]
fn numbers_are_written_in_decimal() {
    assert_eq!(to_decimal(0), "0");
    assert_eq!(to_decimal(5), "5");
    assert_eq!(to_decimal(10), "10");
    assert_eq!(to_decimal(1_700_000_000), "1700000000");
    assert_eq!(to_decimal(-1), "-1");
    assert_eq!(to_decimal(-1234567890), "-1234567890");
    assert_eq!(to_decimal(i64::MAX), "9223372036854775807");
    assert_eq!(to_decimal(i64::MIN), "-9223372036854775808");
}

#[test]
fn written_numbers_are_read_back() {
    let mut value: i64 = 1;
    for _ in 0..62 {
        for number in [value, -value, value - 1, value + 1] {
            assert_eq!(to_decimal(number), number.to_string());
            assert_eq!(parse_i64(&to_decimal(number)), Some(number));
        }
        value *= 2;
    }
}
