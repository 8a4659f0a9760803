use server::text::{char_is_whitespace, chars_of, first_separator, next_token, trim_bounds};

fn chars(s: &str) -> Vec<char> {
    s.chars().collect()
}

fn text(chars: &[char]) -> String {
    chars.iter().collect()
}

fn trimmed(s: &str) -> String {
    let c = chars(s);
    let (a, b) = trim_bounds(&c);
    text(&c[a..b])
}

fn all_tokens(s: &str) -> Vec<String> {
    let c = chars(s);
    let mut found = Vec::new();
    let mut from = 0;
    while let Some((a, b)) = next_token(&c, from) {
        found.push(text(&c[a..b]));
        from = b;
    }
    found
}

#[test]
fn whitespace_is_what_the_standard_library_calls_whitespace() {
    for code in 0u32..=0x10FFFF {
        if let Some(c) = char::from_u32(code) {
            assert_eq!(char_is_whitespace(c), c.is_whitespace(), "U+{:04X}", code);
        }
    }
}

#[test]
fn whitespace_covers_the_ascii_blanks_and_no_letters() {
    for c in [' ', '\t', '\n', '\r', '\u{0B}', '\u{0C}', '\u{85}', '\u{A0}', '\u{3000}'] {
        assert!(char_is_whitespace(c));
    }
    for c in ['a', '0', ':', '/', '\0', '\u{200B}', '\u{FFFD}'] {
        assert!(!char_is_whitespace(c));
    }
}

#[test]
fn chars_of_lists_every_character() {
    assert_eq!(chars_of(""), Vec::<char>::new());
    assert_eq!(chars_of("a b"), vec!['a', ' ', 'b']);
    assert_eq!(chars_of("h\u{e9}\u{4e16}\u{1F600}!"), vec!['h', '\u{e9}', '\u{4e16}', '\u{1F600}', '!']);
}

#[test]
fn next_token_gives_the_range_of_the_next_run() {
    let c = chars("  GET /x\r\n");
    assert_eq!(next_token(&c, 0), Some((2, 5)));
    assert_eq!(next_token(&c, 2), Some((2, 5)));
    assert_eq!(next_token(&c, 3), Some((3, 5)));
    assert_eq!(next_token(&c, 5), Some((6, 8)));
    assert_eq!(next_token(&c, 8), None);
    assert_eq!(next_token(&c, 10), None);
}

#[test]
fn next_token_beyond_the_end_finds_nothing() {
    let c = chars("abc");
    assert_eq!(next_token(&c, 3), None);
    assert_eq!(next_token(&c, 4), None);
    assert_eq!(next_token(&c, usize::MAX), None);
    assert_eq!(next_token(&[], 0), None);
}

#[test]
fn tokens_are_the_whitespace_separated_words() {
    for s in [
        "",
        " ",
        "GET / HTTP/1.1\r\n",
        "GET\t/a\u{A0}b  HTTP/1.1 extra words\n",
        "single",
        "\n",
        " lead",
        "trail ",
        "a\u{3000}b\u{2003}c",
    ] {
        let expected: Vec<String> = s.split_whitespace().map(|t| t.to_string()).collect();
        assert_eq!(all_tokens(s), expected, "{:?}", s);
    }
}

#[test]
fn trim_bounds_keep_what_lies_between_the_blanks() {
    assert_eq!(trim_bounds(&chars("  ab c \r\n")), (2, 6));
    assert_eq!(trim_bounds(&chars("abc")), (0, 3));
    assert_eq!(trim_bounds(&chars("")), (0, 0));
    assert_eq!(trim_bounds(&chars(" \r\n")), (3, 3));
    assert_eq!(trim_bounds(&chars("x")), (0, 1));
}

#[test]
fn trimming_agrees_with_the_standard_library() {
    for s in ["", " ", "\r\n", "Host: a\r\n", "  x  ", "\u{A0}y\u{2028}", "a b", "\t\tz", "q\n\n"] {
        assert_eq!(trimmed(s), s.trim(), "{:?}", s);
    }
}

#[test]
fn first_separator_is_the_first_colon_followed_by_a_space() {
    assert_eq!(first_separator(&chars("Host: a")), Some(4));
    assert_eq!(first_separator(&chars("a: b: c")), Some(1));
    assert_eq!(first_separator(&chars(": x")), Some(0));
    assert_eq!(first_separator(&chars("a:b: c")), Some(3));
    assert_eq!(first_separator(&chars("x: ")), Some(1));
}

#[test]
fn first_separator_needs_both_characters() {
    assert_eq!(first_separator(&chars("")), None);
    assert_eq!(first_separator(&chars(":")), None);
    assert_eq!(first_separator(&chars("Host:a")), None);
    assert_eq!(first_separator(&chars("Host :a")), None);
    assert_eq!(first_separator(&chars("Host:")), None);
    assert_eq!(first_separator(&chars("no separator")), None);
}
