use pokerbot::text::{parse_clock_millis, parse_i32, split_char};

#[test]
fn integers_parse_exactly() {
    assert_eq!(parse_i32("0"), Some(0));
    assert_eq!(parse_i32("150"), Some(150));
    assert_eq!(parse_i32("-42"), Some(-42));
    assert_eq!(parse_i32("007"), Some(7));
    assert_eq!(parse_i32("2147483647"), Some(i32::MAX));
    assert_eq!(parse_i32("-2147483648"), Some(i32::MIN));
}

#[test]
fn non_integers_are_rejected() {
    assert_eq!(parse_i32(""), None);
    assert_eq!(parse_i32("-"), None);
    assert_eq!(parse_i32("12a"), None);
    assert_eq!(parse_i32("2147483648"), None);
    assert_eq!(parse_i32("-2147483649"), None);
    assert_eq!(parse_i32("1.5"), None);
}

#[test]
fn clock_texts_parse_to_milliseconds() {
    assert_eq!(parse_clock_millis("5.0"), Some(5000));
    assert_eq!(parse_clock_millis("5.25"), Some(5250));
    assert_eq!(parse_clock_millis("0.125"), Some(125));
    // Digits past the third fractional place are truncated.
    assert_eq!(parse_clock_millis("1.9999"), Some(1999));
    assert_eq!(parse_clock_millis("30"), Some(30000));
    assert_eq!(parse_clock_millis("5."), Some(5000));
    assert_eq!(parse_clock_millis(".5"), Some(500));
    // A negative time budget reads as an exhausted clock.
    assert_eq!(parse_clock_millis("-3.5"), Some(0));
}

#[test]
fn non_clock_texts_are_rejected() {
    assert_eq!(parse_clock_millis(""), None);
    assert_eq!(parse_clock_millis("."), None);
    assert_eq!(parse_clock_millis("-"), None);
    assert_eq!(parse_clock_millis("1.2.3"), None);
    assert_eq!(parse_clock_millis("abc"), None);
}

#[test]
fn splitting_keeps_empty_pieces() {
    assert_eq!(split_char("9h,9c", ','), vec!["9h".to_string(), "9c".to_string()]);
    assert_eq!(split_char("a  b", ' '), vec!["a".to_string(), "".to_string(), "b".to_string()]);
    assert_eq!(split_char("", ','), vec!["".to_string()]);
    assert_eq!(split_char("x,", ','), vec!["x".to_string(), "".to_string()]);
}
