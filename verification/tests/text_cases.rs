use parsing::text::convert::{join_char, join_text, push_chars, spells, to_chars, to_text};
use parsing::text::number::{decimal_literal, parse_i64, parse_usize, push_decimal};
use parsing::text::order::{rank, Rank};
use parsing::text::scan::{scan, whitespace, CharClass};
use parsing::text::split::{next_line, split_words, trim};

fn chars(s: &str) -> Vec<char> {
    s.chars().collect()
}

fn text(c: &[char]) -> String {
    c.iter().collect()
}

fn lines(s: &str) -> Vec<String> {
    let buf = chars(s);
    let mut out = Vec::new();
    let mut pos = 0;
    while pos < buf.len() {
        let (line, next) = next_line(&buf, pos);
        out.push(text(line));
        pos = next;
    }
    out
}

const SAMPLES: [&str; 16] = [
    "",
    " ",
    "a",
    " a ",
    "\t a b \r\n",
    "a\nb",
    "a\r\nb\r\n",
    "a\rb\r",
    "\n\n",
    "\r\n\r\n x",
    "GET / HTTP/1.1\r\nHost: example.com\r\n\r\n",
    "one  two\tthree\nfour",
    "\u{a0}x\u{2003}y\u{3000}",
    "line\r",
    "\r",
    "a\n\rb\n",
];

#[test]
fn white_space_is_what_std_calls_white_space() {
    let mut code: u32 = 0;
    while code <= 0x10FFFF {
        if let Some(c) = char::from_u32(code) {
            assert_eq!(whitespace(c), c.is_whitespace(), "code point {:x}", code);
        }
        code += 1;
    }
}

#[test]
fn classes_hold_their_characters() {
    assert!(CharClass::Digit.contains('0') && CharClass::Digit.contains('9'));
    assert!(!CharClass::Digit.contains('a') && !CharClass::Digit.contains('-'));
    assert!(CharClass::Numeric.contains('-') && CharClass::Numeric.contains('.'));
    assert!(CharClass::Numeric.contains('5') && !CharClass::Numeric.contains('+'));
    assert!(CharClass::Visible.contains('x') && !CharClass::Visible.contains(' '));
    assert!(CharClass::Whitespace.contains('\n') && !CharClass::Whitespace.contains('x'));
    assert!(CharClass::Except('#').contains('a') && !CharClass::Except('#').contains('#'));
}

#[test]
fn scan_stops_at_the_first_character_outside_the_class() {
    let buf = chars("  ab12.-x");
    assert_eq!(scan(&buf, 0, CharClass::Whitespace), 2);
    assert_eq!(scan(&buf, 2, CharClass::Whitespace), 2);
    assert_eq!(scan(&buf, 2, CharClass::Visible), 9);
    assert_eq!(scan(&buf, 4, CharClass::Digit), 6);
    assert_eq!(scan(&buf, 4, CharClass::Numeric), 8);
    assert_eq!(scan(&buf, 0, CharClass::Except('x')), 8);
    assert_eq!(scan(&buf, 0, CharClass::Except('z')), 9);
    assert_eq!(scan(&buf, 9, CharClass::Visible), 9);
}

#[test]
fn trim_is_what_std_trims() {
    for s in SAMPLES {
        assert_eq!(text(trim(&chars(s))), s.trim(), "sample {:?}", s);
    }
}

#[test]
fn lines_are_what_std_splits() {
    for s in SAMPLES {
        let expected: Vec<String> = s.lines().map(|l| l.to_string()).collect();
        assert_eq!(lines(s), expected, "sample {:?}", s);
    }
}

#[test]
fn line_positions() {
    let buf = chars("ab\r\ncd\n\nef");
    let (line, next) = next_line(&buf, 0);
    assert_eq!((text(line), next), ("ab".to_string(), 4));
    let (line, next) = next_line(&buf, 4);
    assert_eq!((text(line), next), ("cd".to_string(), 7));
    let (line, next) = next_line(&buf, 7);
    assert_eq!((text(line), next), (String::new(), 8));
    let (line, next) = next_line(&buf, 8);
    assert_eq!((text(line), next), ("ef".to_string(), 10));
}

#[test]
fn words_are_what_std_splits() {
    for s in SAMPLES {
        let buf = chars(s);
        let words: Vec<String> = split_words(&buf).iter().map(|w| text(w)).collect();
        let expected: Vec<String> = s.split_whitespace().map(|w| w.to_string()).collect();
        assert_eq!(words, expected, "sample {:?}", s);
    }
}

fn tokens(alphabet: &[char], max_len: usize) -> Vec<String> {
    let mut all = vec![String::new()];
    let mut last = vec![String::new()];
    for _ in 0..max_len {
        let mut next = Vec::new();
        for t in &last {
            for c in alphabet {
                let mut longer = t.clone();
                longer.push(*c);
                next.push(longer);
            }
        }
        all.extend(next.iter().cloned());
        last = next;
    }
    all
}

#[test]
fn integers_are_what_std_parses() {
    for t in tokens(&['0', '7', '-', '+', 'x'], 4) {
        assert_eq!(parse_i64(&chars(&t)), t.parse::<i64>().ok(), "token {:?}", t);
        assert_eq!(parse_usize(&chars(&t)), t.parse::<usize>().ok(), "token {:?}", t);
    }
    for t in [
        "9223372036854775807",
        "9223372036854775808",
        "-9223372036854775808",
        "-9223372036854775809",
        "+9223372036854775807",
        "18446744073709551615",
        "18446744073709551616",
        "+18446744073709551615",
        "000000000000000000000000000000000012",
        "99999999999999999999999999",
        "-99999999999999999999999999",
        "12a",
        " 12",
        "12 ",
    ] {
        assert_eq!(parse_i64(&chars(t)), t.parse::<i64>().ok(), "token {:?}", t);
        assert_eq!(parse_usize(&chars(t)), t.parse::<usize>().ok(), "token {:?}", t);
    }
}

#[test]
fn integer_values() {
    assert_eq!(parse_i64(&chars("123")), Some(123));
    assert_eq!(parse_i64(&chars("-45")), Some(-45));
    assert_eq!(parse_i64(&chars("+6")), Some(6));
    assert_eq!(parse_i64(&chars("")), None);
    assert_eq!(parse_i64(&chars("-")), None);
    assert_eq!(parse_usize(&chars("18")), Some(18));
    assert_eq!(parse_usize(&chars("+18")), Some(18));
    assert_eq!(parse_usize(&chars("-18")), None);
    assert_eq!(parse_usize(&chars("")), None);
}

#[test]
fn decimals_are_what_std_parses() {
    for t in tokens(&['0', '7', '-', '.'], 5) {
        if t.contains('.') {
            assert_eq!(decimal_literal(&chars(&t)), t.parse::<f64>().is_ok(), "token {:?}", t);
        }
    }
    assert!(decimal_literal(&chars("56.2324")));
    assert!(decimal_literal(&chars("-140.453")));
    assert!(!decimal_literal(&chars("12")));
    assert!(!decimal_literal(&chars("")));
}

#[test]
fn decimal_digits_are_what_std_prints() {
    for n in [0usize, 1, 9, 10, 11, 13, 99, 100, 101, 12345, 1000000, usize::MAX] {
        let mut out = String::from("n=");
        push_decimal(&mut out, n);
        assert_eq!(out, format!("n={}", n));
        assert_eq!(parse_usize(&chars(&out[2..])), Some(n));
    }
}

#[test]
fn rank_is_the_order_of_std() {
    let samples = ["", "a", "ab", "abc", "b", "B", "Content-Length", "Content-Type", "\u{e9}", "z", "a\u{10000}", "a\u{ffff}"];
    for a in samples {
        for b in samples {
            let expected = match a.cmp(b) {
                std::cmp::Ordering::Less => Rank::Before,
                std::cmp::Ordering::Equal => Rank::Same,
                std::cmp::Ordering::Greater => Rank::After,
            };
            assert_eq!(rank(a, b), expected, "{:?} and {:?}", a, b);
            assert_eq!(spells(&chars(a), b), a == b);
        }
    }
}

#[test]
fn conversions_keep_the_characters() {
    for s in SAMPLES {
        assert_eq!(to_chars(s), chars(s));
        assert_eq!(to_text(&chars(s)), s);
        assert_eq!(join_text("prefix: ", &chars(s)), format!("prefix: {}", s));
        let mut out = String::from("x");
        push_chars(&mut out, &chars(s));
        assert_eq!(out, format!("x{}", s));
    }
    assert_eq!(join_char("found: ", '}'), "found: }");
}
