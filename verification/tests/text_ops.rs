use rsh::text::{count_char, is_whitespace, split_char, split_whitespace, starts_with, trim_str};

#[test]
fn trim_removes_surrounding_whitespace() {
    assert_eq!(trim_str("  ls -l \t\n"), "ls -l");
    assert_eq!(trim_str(" \t \n"), "");
    assert_eq!(trim_str(""), "");
    assert_eq!(trim_str("\u{3000}x y\u{a0}"), "x y");
}

#[test]
fn trim_agrees_with_std() {
    for s in ["", " a", "a ", "\u{2028}a\u{85}b\u{205f}", "\u{200b}a", "\x0b\x0cz\r"] {
        assert_eq!(trim_str(s), s.trim());
    }
}

#[test]
fn trim_twice_is_trim_once() {
    let once = trim_str("  echo hi  ");
    assert_eq!(trim_str(&once), once);
}

#[test]
fn whitespace_classes() {
    for c in [' ', '\t', '\n', '\r', '\u{85}', '\u{a0}', '\u{1680}', '\u{2000}', '\u{200a}', '\u{3000}'] {
        assert!(is_whitespace(c));
    }
    for c in ['a', '|', '>', '\u{200b}', '\u{180e}', '~'] {
        assert!(!is_whitespace(c));
    }
    for u in 0u32..0x3100 {
        if let Some(c) = char::from_u32(u) {
            assert_eq!(is_whitespace(c), c.is_whitespace());
        }
    }
}

#[test]
fn words_of_a_line() {
    assert_eq!(split_whitespace("  ls   -l  /tmp "), vec!["ls", "-l", "/tmp"]);
    assert_eq!(split_whitespace(""), Vec::<String>::new());
    assert_eq!(split_whitespace(" \t "), Vec::<String>::new());
    assert_eq!(split_whitespace("one"), vec!["one"]);
}

#[test]
fn words_agree_with_std() {
    for s in ["a b", "\u{3000}x\u{a0}y z ", "  ", "x\ny\tz"] {
        let expected: Vec<&str> = s.split_whitespace().collect();
        assert_eq!(split_whitespace(s), expected);
    }
}

#[test]
fn words_ignore_trimming() {
    let line = "  grep -v  foo \t";
    assert_eq!(split_whitespace(&trim_str(line)), split_whitespace(line));
}

#[test]
fn counting_a_character() {
    assert_eq!(count_char("a|b|c", '|'), 2);
    assert_eq!(count_char("abc", '|'), 0);
    assert_eq!(count_char("", '>'), 0);
    assert_eq!(count_char(">>", '>'), 2);
}

#[test]
fn pieces_between_separators() {
    assert_eq!(split_char("a|b||c", '|'), vec!["a", "b", "", "c"]);
    assert_eq!(split_char("", '|'), vec![""]);
    assert_eq!(split_char("|", '|'), vec!["", ""]);
    assert_eq!(split_char("ls > out", '>'), vec!["ls ", " out"]);
}

#[test]
fn pieces_agree_with_std_and_join_back() {
    for s in ["a|b||c", "", "|", "||x|", "no pipe"] {
        let expected: Vec<&str> = s.split('|').collect();
        let pieces = split_char(s, '|');
        assert_eq!(pieces, expected);
        assert_eq!(pieces.len(), count_char(s, '|') + 1);
        assert_eq!(pieces.join("|"), s);
    }
}

#[test]
fn prefixes() {
    assert!(starts_with("/home/u/src", "/home/u"));
    assert!(starts_with("abc", ""));
    assert!(starts_with("abc", "abc"));
    assert!(!starts_with("ab", "abc"));
    assert!(!starts_with("/tmp", "/home"));
}

#[test]
fn prefixes_agree_with_std() {
    let cases = [("héllo", "hé"), ("", ""), ("", "x"), ("xyz", "xz"), ("a/b", "a/")];
    for (s, p) in cases {
        assert_eq!(starts_with(s, p), s.starts_with(p));
    }
}

#[test]
fn words_are_nonempty_and_unbroken() {
    for w in split_whitespace(" a\u{a0}bc \t d\ne ") {
        assert!(!w.is_empty());
        assert!(!w.chars().any(is_whitespace));
    }
}

#[test]
fn pieces_hold_no_separator() {
    for piece in split_char("x>y>>z", '>') {
        assert!(!piece.contains('>'));
    }
}
