use ciroach::text::{
    from_chars, is_space, parse_i64, push_decimal, push_signed_decimal, to_chars, trim_bounds,
    trim_end,
};

fn parse(text: &str) -> Option<i64> {
    let chars = to_chars(text);
    parse_i64(&chars, 0, chars.len())
}

fn trim(text: &str) -> String {
    let chars = to_chars(text);
    let (from, to) = trim_bounds(&chars, 0, chars.len());
    from_chars(&chars, from, to)
}

#[test]
fn whitespace_is_what_the_standard_library_calls_whitespace() {
    for code in 0u32..0x11000 {
        if let Some(c) = char::from_u32(code) {
            assert_eq!(is_space(c), c.is_whitespace(), "U+{:04X}", code);
        }
    }
}

#[test]
fn trimming_agrees_with_the_standard_library() {
    for text in ["", " ", "a", "  a b \t\n", "\u{3000}x\u{2003}", "\u{a0}\u{a0}", "x  ", "  x"] {
        assert_eq!(trim(text), text.trim());
        assert_eq!(trim_end(text), text.trim_end());
    }
}

#[test]
fn integers_are_read_as_the_standard_library_reads_them() {
    for text in [
        "0",
        "7",
        "-7",
        "+7",
        "007",
        "-0",
        "9223372036854775807",
        "9223372036854775808",
        "-9223372036854775808",
        "-9223372036854775809",
        "99999999999999999999999",
        "",
        "-",
        "+",
        "+-1",
        "1 ",
        " 1",
        "1_000",
        "1.5",
        "0x10",
        "١٢٣",
    ] {
        assert_eq!(parse(text), text.parse::<i64>().ok(), "{:?}", text);
    }
}

#[test]
fn integers_read_exact_values() {
    assert_eq!(parse("2048"), Some(2048));
    assert_eq!(parse("-9223372036854775808"), Some(i64::MIN));
    assert_eq!(parse("9223372036854775807"), Some(i64::MAX));
    assert_eq!(parse("9223372036854775808"), None);
}

#[test]
fn a_part_of_the_characters_can_be_read() {
    let chars = to_chars("ab-12cd");
    assert_eq!(parse_i64(&chars, 2, 5), Some(-12));
    assert_eq!(parse_i64(&chars, 3, 5), Some(12));
    assert_eq!(parse_i64(&chars, 3, 6), None);
    assert_eq!(parse_i64(&chars, 3, 3), None);
}

#[test]
fn decimals_are_written_as_the_standard_library_writes_them() {
    for n in [0u64, 1, 9, 10, 11, 99, 100, 12345, u64::MAX] {
        let mut out = String::from("n=");
        push_decimal(&mut out, n);
        assert_eq!(out, format!("n={}", n));
    }
    for n in [0i64, 1, -1, 10, -10, 137, -137, i64::MAX, i64::MIN] {
        let mut out = String::new();
        push_signed_decimal(&mut out, n);
        assert_eq!(out, format!("{}", n));
    }
}

#[test]
fn a_written_integer_reads_back() {
    for n in [0i64, 5, -5, 1024, i64::MAX, i64::MIN] {
        let mut out = String::new();
        push_signed_decimal(&mut out, n);
        assert_eq!(parse(&out), Some(n));
    }
}
