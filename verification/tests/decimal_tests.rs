use server::decimal::{decimal_string, parse_usize};

fn parse(s: &str) -> Option<usize> {
    let c: Vec<char> = s.chars().collect();
    parse_usize(&c)
}

#[test]
fn parse_usize_reads_plain_digits() {
    assert_eq!(parse("0"), Some(0));
    assert_eq!(parse("7"), Some(7));
    assert_eq!(parse("42"), Some(42));
    assert_eq!(parse("8192"), Some(8192));
    assert_eq!(parse("007"), Some(7));
    assert_eq!(parse("0000"), Some(0));
}

#[test]
fn parse_usize_takes_one_leading_plus() {
    assert_eq!(parse("+5"), Some(5));
    assert_eq!(parse("+0"), Some(0));
    assert_eq!(parse("+"), None);
    assert_eq!(parse("++5"), None);
    assert_eq!(parse("5+"), None);
}

#[test]
fn parse_usize_rejects_what_is_no_number() {
    assert_eq!(parse(""), None);
    assert_eq!(parse("-1"), None);
    assert_eq!(parse("-0"), None);
    assert_eq!(parse(" 1"), None);
    assert_eq!(parse("1 "), None);
    assert_eq!(parse("1a"), None);
    assert_eq!(parse("a1"), None);
    assert_eq!(parse("1.0"), None);
    assert_eq!(parse("0x10"), None);
    assert_eq!(parse("\u{661}"), None);
    assert_eq!(parse("1_000"), None);
}

#[test]
fn parse_usize_stops_at_the_largest_number() {
    let max = usize::MAX.to_string();
    assert_eq!(parse(&max), Some(usize::MAX));
    assert_eq!(parse(&format!("000{}", max)), Some(usize::MAX));
    assert_eq!(parse(&format!("{}0", max)), None);
    assert_eq!(parse("340282366920938463463374607431768211456"), None);
    let mut digits: Vec<char> = max.chars().collect();
    let last = digits.pop().unwrap();
    let next = char::from_digit(last.to_digit(10).unwrap() + 1, 10);
    if let Some(c) = next {
        digits.push(c);
        assert_eq!(parse_usize(&digits), None);
    }
}

#[test]
fn parse_usize_agrees_with_the_standard_library() {
    for s in [
        "", "+", "-", "0", "+0", "-0", "12", "+12", "-12", "00012", "1 2", "12\n", "\t12", "9999999999",
        "18446744073709551615", "18446744073709551616", "4294967295", "4294967296", "abc", "1e3",
    ] {
        assert_eq!(parse(s), s.parse::<usize>().ok(), "{:?}", s);
    }
}

#[test]
fn decimal_string_writes_base_ten() {
    assert_eq!(decimal_string(0), "0");
    assert_eq!(decimal_string(2), "2");
    assert_eq!(decimal_string(9), "9");
    assert_eq!(decimal_string(10), "10");
    assert_eq!(decimal_string(190), "190");
    assert_eq!(decimal_string(8192), "8192");
    assert_eq!(decimal_string(1000000), "1000000");
    assert_eq!(decimal_string(usize::MAX), usize::MAX.to_string());
}

#[test]
fn decimal_string_reads_back() {
    for n in [0usize, 1, 9, 10, 11, 99, 100, 101, 12345, 65535, 65536, usize::MAX - 1, usize::MAX] {
        assert_eq!(decimal_string(n), n.to_string());
        assert_eq!(parse(&decimal_string(n)), Some(n));
    }
}
