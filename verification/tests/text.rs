use markviewer::text::{
    chars_of, find_char_from, is_whitespace_char, matches_at, push_decimal, split_lines, trimmed,
};

fn text(chars: &Vec<char>) -> String {
    chars.iter().collect()
}

#[test]
fn whitespace_agrees_with_std_on_every_char() {
    let mut code: u32 = 0;
    while code <= 0x10FFFF {
        if let Some(c) = char::from_u32(code) {
            assert_eq!(is_whitespace_char(c), c.is_whitespace(), "U+{:04X}", code);
        }
        code += 1;
    }
}

#[test]
fn whitespace_named_code_points() {
    assert!(is_whitespace_char(' '));
    assert!(is_whitespace_char('\t'));
    assert!(is_whitespace_char('\n'));
    assert!(is_whitespace_char('\r'));
    assert!(is_whitespace_char('\u{A0}'));
    assert!(is_whitespace_char('\u{3000}'));
    assert!(!is_whitespace_char('a'));
    assert!(!is_whitespace_char('\u{200B}'));
    assert!(!is_whitespace_char('\u{180E}'));
}

#[test]
fn trimmed_agrees_with_std() {
    let samples = [
        "",
        " ",
        "a",
        "  a  ",
        "\t\n a b \r\n",
        "\u{A0}x\u{3000}",
        "x  y",
        "   ",
        "\u{200B} z ",
    ];
    for sample in samples {
        let got = trimmed(&chars_of(sample));
        assert_eq!(text(&got), sample.trim());
    }
}

#[test]
fn split_lines_agrees_with_std() {
    let samples = [
        "",
        "a",
        "a\n",
        "a\nb",
        "a\r\nb\r\n",
        "\n",
        "\n\n",
        "a\r",
        "a\r\r\n",
        "\r\n",
        "one\n\ntwo\n\n",
        "tr\u{e9}s\nbien",
        "x\ry\nz",
    ];
    for sample in samples {
        let got: Vec<String> = split_lines(&chars_of(sample)).iter().map(text).collect();
        let expected: Vec<String> = sample.lines().map(|l| l.to_string()).collect();
        assert_eq!(got, expected, "{:?}", sample);
    }
}

#[test]
fn split_lines_keeps_carriage_return_without_line_feed() {
    let got: Vec<String> = split_lines(&chars_of("a\r")).iter().map(text).collect();
    assert_eq!(got, vec!["a\r".to_string()]);
}

#[test]
fn decimal_numerals() {
    let cases: [(u128, &str); 7] = [
        (0, "0"),
        (7, "7"),
        (10, "10"),
        (42, "42"),
        (1005, "1005"),
        (1700000000123, "1700000000123"),
        (u128::MAX, "340282366920938463463374607431768211455"),
    ];
    for (n, expected) in cases {
        let mut out: Vec<char> = vec!['#'];
        push_decimal(&mut out, n);
        assert_eq!(text(&out), format!("#{}", expected));
    }
}

#[test]
fn matches_at_positions() {
    let s = chars_of("abcabc");
    assert!(matches_at(&s, 0, "abc"));
    assert!(matches_at(&s, 3, "abc"));
    assert!(!matches_at(&s, 1, "abc"));
    assert!(!matches_at(&s, 4, "abc"));
    assert!(matches_at(&s, 6, ""));
    assert!(!matches_at(&s, 7, ""));
}

#[test]
fn find_char_from_positions() {
    let s = chars_of("a,b,c");
    assert_eq!(find_char_from(&s, ',', 0), 1);
    assert_eq!(find_char_from(&s, ',', 2), 3);
    assert_eq!(find_char_from(&s, ',', 4), 5);
    assert_eq!(find_char_from(&s, 'x', 0), 5);
}

#[test]
fn chars_of_keeps_every_character() {
    assert_eq!(chars_of("h\u{e9}\u{1F600}!"), vec!['h', '\u{e9}', '\u{1F600}', '!']);
    assert_eq!(chars_of(""), Vec::<char>::new());
}
