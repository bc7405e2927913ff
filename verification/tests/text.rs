use cs110l::text::{chars_of, split_at_char, split_whitespace, string_from_chars, trim_chars, char_is_whitespace};

#[test]
fn chars_round_trip() {
    let s = "héllo, wörld ✓";
    let c = chars_of(s);
    assert_eq!(c, s.chars().collect::<Vec<char>>());
    assert_eq!(string_from_chars(&c), s);
    assert!(chars_of("").is_empty());
}

#[test]
fn whitespace_matches_std() {
    for u in 0u32..0x3100 {
        if let Some(c) = char::from_u32(u) {
            assert_eq!(char_is_whitespace(c), c.is_whitespace(), "U+{:04X}", u);
        }
    }
}

#[test]
fn split_whitespace_matches_std() {
    for s in ["", "   ", "a", " a  b\tc\n", "x\u{2003}y\u{85}z", "tail "] {
        let ours = split_whitespace(s);
        let std: Vec<String> = s.split_whitespace().map(|t| t.to_string()).collect();
        assert_eq!(ours, std, "{:?}", s);
    }
}

#[test]
fn words_are_nonempty_without_whitespace() {
    let words = split_whitespace("  one  two\t\tthree \n");
    assert_eq!(words.len(), 3);
    for w in &words {
        assert!(!w.is_empty());
        assert!(!w.chars().any(|c| c.is_whitespace()));
    }
}

#[test]
fn split_lines_matches_std() {
    for s in ["", "a", "a\nb", "a\nb\n", "\n\n", "one\r\ntwo"] {
        let chars: Vec<char> = s.chars().collect();
        let ours: Vec<String> = split_at_char(&chars, '\n').iter().map(|p| p.iter().collect()).collect();
        let std: Vec<String> = s.split('\n').map(|t| t.to_string()).collect();
        assert_eq!(ours, std, "{:?}", s);
    }
}

#[test]
fn trim_matches_std() {
    for s in ["", "  ", " a ", "a b", "\tword\r", "\u{3000}x\u{a0}"] {
        let chars: Vec<char> = s.chars().collect();
        assert_eq!(trim_chars(&chars), s.trim(), "{:?}", s);
    }
}

#[test]
fn blank_iff_no_words() {
    for s in ["", " \t", "x", "  y  "] {
        let chars: Vec<char> = s.chars().collect();
        assert_eq!(trim_chars(&chars).is_empty(), split_whitespace(s).is_empty());
    }
}
