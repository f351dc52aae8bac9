use ping_agent_mail::mail::escape_html;
use ping_agent_mail::text::{
    blank, contains_line_break, decimal_string, signed_decimal_string, utf8_len_exceeds,
    white_space,
};

#[test]
fn white_space_is_the_std_set() {
    for code in 0u32..=0x10ffff {
        if let Some(c) = char::from_u32(code) {
            assert_eq!(white_space(c), c.is_whitespace(), "U+{code:04X}");
        }
    }
}

#[test]
fn blank_matches_trim() {
    for s in ["", " ", "\t\n\u{3000}", " a ", "x", "\u{200b}"] {
        assert_eq!(blank(s), s.trim().is_empty(), "{s:?}");
    }
}

#[test]
fn line_breaks() {
    assert!(contains_line_break("a\rb"));
    assert!(contains_line_break("\n"));
    assert!(!contains_line_break("a\u{2028}b"));
}

#[test]
fn utf8_lengths_match_str_len() {
    for s in ["", "abc", "é", "€uro", "😀!", "a€😀é"] {
        let n = s.len();
        assert!(!utf8_len_exceeds(s, n), "{s:?}");
        if n > 0 {
            assert!(utf8_len_exceeds(s, n - 1), "{s:?}");
        }
    }
}

#[test]
fn decimals_match_std() {
    for n in [0u64, 7, 10, 99, 100, 65536, u64::MAX] {
        assert_eq!(decimal_string(n), n.to_string());
    }
    for n in [0i64, -1, 42, i64::MIN, i64::MAX] {
        assert_eq!(signed_decimal_string(n), n.to_string());
    }
}

#[test]
fn escaping_round_trips_through_an_html_reader() {
    let message = "Tom & Jerry <b>\"quoted\"</b> 'single'";
    let escaped = escape_html(message);
    let read_back = escaped
        .replace("&lt;", "<")
        .replace("&gt;", ">")
        .replace("&quot;", "\"")
        .replace("&#39;", "'")
        .replace("&amp;", "&");
    assert_eq!(read_back, message);
}
