use iai_callgrind_runner::text::{
    align_right, chars_of, contains, is_ascii_digit, is_ascii_space, is_white_space, parse_number,
    split_words, starts_with, to_decimal, trim, trim_start,
};

fn words_of(text: &str) -> Vec<String> {
    split_words(&chars_of(text))
        .iter()
        .map(|word| word.iter().collect())
        .collect()
}

#[test]
fn white_space_is_that_of_std() {
    for c in '\0'..=char::MAX {
        assert_eq!(is_white_space(c), c.is_whitespace(), "{:?}", c);
        assert_eq!(is_ascii_space(c), c.is_ascii_whitespace(), "{:?}", c);
        assert_eq!(is_ascii_digit(c), c.is_ascii_digit(), "{:?}", c);
    }
}

#[test]
fn trimming_is_that_of_std() {
    for text in ["", " ", "a", " a", "a ", "\t\u{3000} a b \u{b}\n", "x86_64\n", "\u{a0}"] {
        assert_eq!(trim(text), text.trim());
        let rest: String = trim_start(text).iter().collect();
        assert_eq!(rest, text.trim_start());
    }
}

#[test]
fn prefixes_and_occurrences() {
    let text = chars_of("callgrind");
    assert!(starts_with(&text, ""));
    assert!(starts_with(&text, "call"));
    assert!(starts_with(&text, "callgrind"));
    assert!(!starts_with(&text, "callgrind "));
    assert!(!starts_with(&text, "cell"));

    assert!(contains("", ""));
    assert!(contains("# callgrind format", "callgrind format"));
    assert!(contains("callgrind format", "callgrind format"));
    assert!(!contains("callgrind  format", "callgrind format"));
    assert!(!contains("callgrind forma", "callgrind format"));
    assert!(contains("aab", "ab"));
    assert!(contains("ab", ""));
    assert!(!contains("", "a"));
}

#[test]
fn words_are_those_of_std() {
    for text in ["", "  ", "0", "0 12 3", " 0\t12  3 \r", "a\u{b}b \u{c}c", "\u{3000}a b"] {
        let expected: Vec<String> = text.split_ascii_whitespace().map(String::from).collect();
        assert_eq!(words_of(text), expected, "{:?}", text);
    }
}

#[test]
fn numbers_are_those_of_std() {
    for text in [
        "",
        "+",
        "-",
        "-0",
        "+5",
        "++5",
        "0",
        "007",
        "12a",
        "a12",
        "1 2",
        "18446744073709551615",
        "18446744073709551616",
        "18446744073709551620",
        "99999999999999999999999",
        "00000000000000000000000000001",
        "\u{661}",
    ] {
        assert_eq!(parse_number(&chars_of(text)), text.parse::<u64>().ok(), "{:?}", text);
    }
}

#[test]
fn decimals_read_back() {
    for value in [0, 1, 9, 10, 99, 100, 12345678909876, u64::MAX - 1, u64::MAX] {
        let written = to_decimal(value);
        assert_eq!(written, value.to_string());
        assert_eq!(parse_number(&chars_of(&written)), Some(value));
    }
}

#[test]
fn alignment_is_that_of_std() {
    for text in ["", "a", "+inf", "\u{e4}\u{f6}", "+1.234567"] {
        assert_eq!(align_right(text, 6), format!("{:>6}", text));
    }
}
