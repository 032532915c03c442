use anglerfry::text::{
    eq_ignore_ascii_case, join_words, parse_unsigned, push_decimal, push_signed, same_text,
    split_words,
};

#[test]
fn splits_at_any_white_space() {
    assert_eq!(split_words("  go \t depth\u{3000}3\n"), vec!["go", "depth", "3"]);
    assert!(split_words(" \r\n ").is_empty());
    assert_eq!(split_words("é ü"), vec!["é", "ü"]);
}

#[test]
fn compares_texts() {
    assert!(same_text("uci", "uci"));
    assert!(!same_text("uci", "ucinewgame"));
    assert!(eq_ignore_ascii_case("Strategy", "sTRATEGY"));
    assert!(!eq_ignore_ascii_case("é", "É"));
}

#[test]
fn reads_unsigned_numbers_as_str_parse_does() {
    assert_eq!(parse_unsigned("255", 255), Some(255));
    assert_eq!(parse_unsigned("256", 255), None);
    assert_eq!(parse_unsigned("+0", 255), Some(0));
    assert_eq!(parse_unsigned("+", 255), None);
    assert_eq!(parse_unsigned("", 255), None);
    assert_eq!(parse_unsigned("-1", 255), None);
    assert_eq!(parse_unsigned("18446744073709551615", u64::MAX), Some(u64::MAX));
    assert_eq!(parse_unsigned("18446744073709551616", u64::MAX), None);
    assert_eq!(parse_unsigned("12a", u64::MAX), None);
    for text in ["0", "7", "42", "+42", "0042", "x", "4 2", "99999999999999999999"] {
        assert_eq!(parse_unsigned(text, u64::MAX), text.parse::<u64>().ok());
        assert_eq!(
            parse_unsigned(text, u8::MAX as u64),
            text.parse::<u8>().ok().map(u64::from)
        );
    }
}

#[test]
fn writes_numbers_as_display_does() {
    let mut out = String::from("n=");
    push_decimal(&mut out, 0);
    push_decimal(&mut out, 1207);
    assert_eq!(out, "n=01207");
    for n in [0i64, -1, 9, -10, 123_456, i64::MIN, i64::MAX] {
        let mut out = String::new();
        push_signed(&mut out, n);
        assert_eq!(out, n.to_string());
    }
    let mut out = String::new();
    push_decimal(&mut out, u128::MAX);
    assert_eq!(out, u128::MAX.to_string());
}

#[test]
fn joins_words_with_single_spaces() {
    let words = ["a", "bc", "d"];
    assert_eq!(join_words(&words, 0, 3), "a bc d");
    assert_eq!(join_words(&words, 1, 2), "bc");
    assert_eq!(join_words(&words, 2, 2), "");
}
