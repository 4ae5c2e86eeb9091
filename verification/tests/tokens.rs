use cairo_verifier::decimal::parse_unsigned;
use cairo_verifier::token::{char_is_whitespace, chars_of, tokenize};

#[test]
fn tokenize_splits_on_whitespace() {
    assert_eq!(tokenize("1 22 333"), vec!["1", "22", "333"]);
    assert_eq!(tokenize("  1\t22\n\n333  "), vec!["1", "22", "333"]);
    assert_eq!(tokenize("1\u{a0}2\u{3000}3\u{2003}4"), vec!["1", "2", "3", "4"]);
}

#[test]
fn tokenize_strips_one_pair_of_brackets() {
    assert_eq!(tokenize("[1 2 3]"), vec!["1", "2", "3"]);
    assert_eq!(tokenize("[1 2 3"), vec!["1", "2", "3"]);
    assert_eq!(tokenize("1 2 3]"), vec!["1", "2", "3"]);
    assert_eq!(tokenize("[[1 2]]"), vec!["[1", "2]"]);
    assert_eq!(tokenize(" [1 2] "), vec!["[1", "2]"]);
    assert_eq!(tokenize("[ 1 ]"), vec!["1"]);
}

#[test]
fn tokenize_of_nothing_is_empty() {
    assert!(tokenize("").is_empty());
    assert!(tokenize("[]").is_empty());
    assert!(tokenize("[").is_empty());
    assert!(tokenize("]").is_empty());
    assert!(tokenize(" \t\r\n").is_empty());
    assert!(tokenize("[ ]").is_empty());
}

#[test]
fn tokenize_keeps_characters_of_any_width() {
    assert_eq!(tokenize("[é ß 漢字 🦀]"), vec!["é", "ß", "漢字", "🦀"]);
}

#[test]
fn tokenize_agrees_with_split_whitespace() {
    let inputs = [
        "1 2 3",
        " a  b\tc\n",
        "x\u{85}y\u{1680}z\u{2028}w\u{2029}v\u{202f}u\u{205f}t",
        "\u{b}\u{c}one\u{b}two",
        "no-space",
        "\u{200b}zero-width\u{200b} is no space",
    ];
    for input in inputs {
        let expected: Vec<&str> = input.split_whitespace().collect();
        assert_eq!(tokenize(input), expected);
    }
}

#[test]
fn tokens_are_not_empty_and_hold_no_whitespace() {
    let inputs = ["[ 1  22\t333 \n]", "\u{3000}a\u{2009}b c\u{a0}", "   ", "x", "[a]b] ["];
    for input in inputs {
        for token in tokenize(input) {
            assert!(!token.is_empty(), "{:?}", input);
            assert!(!token.chars().any(char_is_whitespace), "{:?}", input);
        }
    }
}

#[test]
fn whitespace_is_the_unicode_property() {
    let mut code: u32 = 0;
    while code <= 0x10ffff {
        if let Some(c) = char::from_u32(code) {
            assert_eq!(char_is_whitespace(c), c.is_whitespace(), "U+{:04X}", code);
        }
        code += 1;
    }
}

#[test]
fn chars_of_gives_every_character() {
    assert_eq!(chars_of("a é🦀"), vec!['a', ' ', 'é', '🦀']);
    assert!(chars_of("").is_empty());
}

#[test]
fn parse_unsigned_reads_decimal() {
    assert_eq!(parse_unsigned("0", u64::MAX), Some(0));
    assert_eq!(parse_unsigned("42", u64::MAX), Some(42));
    assert_eq!(parse_unsigned("+42", u64::MAX), Some(42));
    assert_eq!(parse_unsigned("007", u64::MAX), Some(7));
    assert_eq!(parse_unsigned("18446744073709551615", u64::MAX), Some(u64::MAX));
    assert_eq!(
        parse_unsigned("000000000000000000000000000000000001", u64::MAX),
        Some(1)
    );
}

#[test]
fn parse_unsigned_rejects_what_is_no_number() {
    for token in ["", "+", "-", "-1", "++1", "+-1", "1 ", " 1", "1_0", "0x10", "1e3", "١٢٣", "12a"] {
        assert_eq!(parse_unsigned(token, u64::MAX), None, "{:?}", token);
    }
}

#[test]
fn parse_unsigned_rejects_what_is_over_the_limit() {
    assert_eq!(parse_unsigned("18446744073709551616", u64::MAX), None);
    assert_eq!(parse_unsigned("99999999999999999999999999", u64::MAX), None);
    assert_eq!(parse_unsigned("4294967295", 0xffff_ffff), Some(0xffff_ffff));
    assert_eq!(parse_unsigned("4294967296", 0xffff_ffff), None);
    assert_eq!(parse_unsigned("10", 9), None);
    assert_eq!(parse_unsigned("9", 9), Some(9));
    assert_eq!(parse_unsigned("0", 0), Some(0));
    assert_eq!(parse_unsigned("1", 0), None);
}

#[test]
fn parse_unsigned_agrees_with_the_standard_parser() {
    let tokens = [
        "0", "1", "+1", "-0", "+0", "00", "", "+", "255", "256", "65535", "4294967295",
        "4294967296", "18446744073709551615", "18446744073709551616", "1844674407370955161500",
        "12 ", "a", "1a", "٣", "1_000",
    ];
    for token in tokens {
        assert_eq!(parse_unsigned(token, u64::MAX), token.parse::<u64>().ok(), "{:?}", token);
        assert_eq!(
            parse_unsigned(token, 0xffff_ffff),
            token.parse::<u32>().ok().map(u64::from),
            "{:?}",
            token
        );
    }
}
