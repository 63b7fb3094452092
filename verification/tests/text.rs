use nixos_gen_diff::float::float_text_at;
use nixos_gen_diff::text::{is_white_char, same_text, split_lines, split_words};

#[test]
fn whitespace_matches_std_for_every_char() {
    for u in 0u32..0x110000 {
        if let Some(c) = char::from_u32(u) {
            assert_eq!(is_white_char(c), c.is_whitespace(), "char {:#x}", u);
        }
    }
}

#[test]
fn words_match_split_whitespace() {
    let samples = [
        "",
        "   ",
        "a",
        " a  b\tc\n",
        "bottles: 65.4, 65.4-fhsenv → 64.1",
        "x\u{3000}y\u{a0}z\u{2028}w",
    ];
    for s in samples {
        let expected: Vec<String> = s.split_whitespace().map(|w| w.to_string()).collect();
        assert_eq!(split_words(s), expected, "{:?}", s);
    }
}

#[test]
fn lines_match_std_lines() {
    let samples = ["", "\n", "a", "a\n", "a\n\n", "a\r\nb\r\n", "a\rb", "a\r", "\r\n\r\n", "x\ny"];
    for s in samples {
        let expected: Vec<String> = s.lines().map(|w| w.to_string()).collect();
        assert_eq!(split_lines(s), expected, "{:?}", s);
    }
}

#[test]
fn float_text_matches_std_parse() {
    let samples = [
        "", "+", "-", ".", "0", "2.8", "-188.0", "+12.5", "245.", ".5", "1e5", "1E5", "1e+5", "1e-5",
        "1e", "1e+", "e5", "inf", "-inf", "+Infinity", "INFINITY", "NaN", "nan", "-nan", "infi",
        "in", "1.2.3", "1..2", "12a", " 1", "1 ", "0x10", "1_000", "١", "1.5e3.2", "-.5e-7",
        "--1", "+-1", "5.e3", ".e3", "∞", "KiB", "1,", "Inf", "iNfInItY",
    ];
    for s in samples {
        let chars: Vec<char> = s.chars().collect();
        assert_eq!(
            float_text_at(&chars, 0, chars.len()),
            s.parse::<f64>().is_ok(),
            "{:?}",
            s
        );
    }
}

#[test]
fn same_text_compares_characters() {
    assert!(same_text("linux", "linux"));
    assert!(!same_text("linux", "linux-zen"));
    assert!(!same_text("a", "b"));
    assert!(same_text("", ""));
}
