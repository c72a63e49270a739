//! The character-level helpers agree with the `str`, `char` and `u64`
//! functions whose behaviour their specifications state.
use netspeed::text::{
    chars_eq_str, chars_to_string, is_whitespace, parse_u64_chars, push_decimal, split_lines,
    split_once_chars, split_words, to_chars, trim_chars,
};

fn s(v: &[char]) -> String {
    v.iter().collect()
}

const SAMPLES: &[&str] = &[
    "",
    "a",
    "\n",
    "\n\n",
    "a\nb",
    "a\r\nb\r\n",
    "a\r",
    "x\r\ny\n\r",
    "  lo: 12 34\t\n",
    "\u{A0}nbsp\u{2003}em\u{3000}",
    "eth0:1: 1 2",
    "+5 -5 ++5 + 18446744073709551615 18446744073709551616 007",
    "\t\u{85}mixed \u{2028} words\u{205F}",
];

#[test]
fn whitespace_matches_char_is_whitespace() {
    for u in 0u32..=0x10FFFF {
        if let Some(c) = char::from_u32(u) {
            assert_eq!(is_whitespace(c), c.is_whitespace(), "{:?}", c);
        }
    }
}

#[test]
fn split_lines_matches_str_lines() {
    for t in SAMPLES {
        let got: Vec<String> = split_lines(&to_chars(t)).iter().map(|l| s(l)).collect();
        let want: Vec<String> = t.lines().map(|l| l.to_string()).collect();
        assert_eq!(got, want, "{:?}", t);
    }
}

#[test]
fn split_words_matches_split_whitespace() {
    for t in SAMPLES {
        let got: Vec<String> = split_words(&to_chars(t)).iter().map(|w| s(w)).collect();
        let want: Vec<String> = t.split_whitespace().map(|w| w.to_string()).collect();
        assert_eq!(got, want, "{:?}", t);
    }
}

#[test]
fn trim_matches_str_trim() {
    for t in SAMPLES {
        let cs = to_chars(t);
        assert_eq!(s(&trim_chars(&cs, 0, cs.len())), t.trim(), "{:?}", t);
    }
}

#[test]
fn split_once_matches_str_split_once() {
    for t in SAMPLES {
        let got = split_once_chars(&to_chars(t), ':').map(|(a, b)| (s(&a), s(&b)));
        let want = t.split_once(':').map(|(a, b)| (a.to_string(), b.to_string()));
        assert_eq!(got, want, "{:?}", t);
    }
}

#[test]
fn parse_matches_u64_from_str() {
    let words = [
        "", "+", "-", "0", "+0", "-0", "42", "+42", "++42", "4 2", "4a", "007",
        "18446744073709551615", "18446744073709551616", "99999999999999999999999",
        "１２",
    ];
    for w in words {
        assert_eq!(parse_u64_chars(&to_chars(w)), w.parse::<u64>().ok(), "{:?}", w);
    }
}

#[test]
fn decimal_matches_display() {
    for n in [0u128, 1, 9, 10, 99, 100, 12345, u64::MAX as u128, u128::MAX] {
        let mut out = Vec::new();
        push_decimal(&mut out, n);
        assert_eq!(s(&out), n.to_string());
    }
}

#[test]
fn string_round_trip_and_equality() {
    let cs = to_chars("héllo ▶");
    assert_eq!(chars_to_string(&cs), "héllo ▶");
    assert!(chars_eq_str(&cs, "héllo ▶"));
    assert!(!chars_eq_str(&cs, "hello ▶"));
    assert!(!chars_eq_str(&cs, "héllo"));
}
