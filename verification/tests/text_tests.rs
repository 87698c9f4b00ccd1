use stacked_diffs::text::{
    chars_of, contains_str, decimal_string, is_whitespace, line_ranges, parse_counts, parse_u64,
    parse_usize, trim_str, word_ranges,
};

fn lines(s: &str) -> Vec<String> {
    let cs = chars_of(s);
    line_ranges(&cs).iter().map(|&(a, b)| cs[a..b].iter().collect()).collect()
}

fn words(s: &str) -> Vec<String> {
    let cs = chars_of(s);
    word_ranges(&cs).iter().map(|&(a, b)| cs[a..b].iter().collect()).collect()
}

#[test]
fn lines_split_like_str_lines() {
    for s in ["", "a", "a\n", "\n", "a\r\nb\n", "a\r", "a\n\nb", "x\r\r\ny", "\r\n\r\n"] {
        let expected: Vec<String> = s.lines().map(|l| l.to_string()).collect();
        assert_eq!(lines(s), expected, "input {s:?}");
    }
}

#[test]
fn words_split_like_split_whitespace() {
    for s in ["", "  ", "3\t5", " a  b\nc ", "\u{2003}x\u{3000}y"] {
        let expected: Vec<String> = s.split_whitespace().map(|w| w.to_string()).collect();
        assert_eq!(words(s), expected, "input {s:?}");
    }
}

#[test]
fn trim_like_str_trim() {
    for s in ["", " a ", "\t\na b\r\n", "\u{a0}x\u{2028}", "\u{3000}"] {
        assert_eq!(trim_str(s), s.trim(), "input {s:?}");
    }
}

#[test]
fn whitespace_like_char_is_whitespace() {
    for u in 0u32..0x3100 {
        if let Some(c) = char::from_u32(u) {
            assert_eq!(is_whitespace(c), c.is_whitespace(), "char {u:#x}");
        }
    }
}

#[test]
fn parse_like_from_str() {
    for s in ["0", "42", "+7", "", "+", "-1", "1a", "18446744073709551615", "18446744073709551616", "007"] {
        assert_eq!(parse_u64(s), s.parse::<u64>().ok(), "input {s:?}");
        assert_eq!(parse_usize(s), s.parse::<usize>().ok(), "input {s:?}");
    }
}

#[test]
fn decimal_text() {
    assert_eq!(decimal_string(0), "0");
    assert_eq!(decimal_string(1907), "1907");
    assert_eq!(decimal_string(u64::MAX), u64::MAX.to_string());
}

#[test]
fn counts_from_rev_list() {
    assert_eq!(parse_counts("3\t5"), (3, 5));
    assert_eq!(parse_counts("0\t12\n"), (0, 12));
    assert_eq!(parse_counts("x 2"), (0, 2));
    assert_eq!(parse_counts("7"), (7, 0));
    assert_eq!(parse_counts(""), (0, 0));
}

#[test]
fn substring_search() {
    assert!(contains_str("GraphQL: no pull requests found for branch", "no pull requests found"));
    assert!(!contains_str("no pull request", "no pull requests found"));
    assert!(contains_str("abc", ""));
    assert!(!contains_str("", "a"));
}
