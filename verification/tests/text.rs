use newsletter::text::{chars_of, replace_all};
use newsletter::words::{collapse_whitespace, is_white_space};

#[test]
fn replace_all_matches_str_replace() {
    let cases = [
        ("", "ab", "x"),
        ("aaaa", "aa", "b"),
        ("aaa", "aa", "b"),
        ("abcabc", "abc", ""),
        ("__LIST____LIST__", "__LIST__", "L"),
        ("\u{e9}\u{e9}x\u{e9}", "\u{e9}x", "Y"),
        ("no match here", "zz", "q"),
    ];
    for (s, p, r) in cases {
        assert_eq!(replace_all(s, p, r), s.replace(p, r));
    }
}

#[test]
fn chars_of_lists_characters() {
    assert_eq!(chars_of("a\u{e9}\u{1f600}"), vec!['a', '\u{e9}', '\u{1f600}']);
}

#[test]
fn is_white_space_agrees_with_char_is_whitespace() {
    for code in 0u32..=0x10FFFF {
        if let Some(c) = char::from_u32(code) {
            assert_eq!(is_white_space(c), c.is_whitespace(), "{code:#x}");
        }
    }
}

#[test]
fn collapse_whitespace_matches_split_and_join() {
    for s in ["", "  ", " a  b ", "a\tb\nc", "\u{a0}x\u{3000}y\u{85}", "one"] {
        let v: Vec<char> = s.chars().collect();
        let expected = s.split_whitespace().collect::<Vec<_>>().join(" ");
        assert_eq!(collapse_whitespace(&v), expected);
    }
}

#[test]
fn collapse_whitespace_is_idempotent() {
    let v: Vec<char> = "  x   y \n z ".chars().collect();
    let once = collapse_whitespace(&v);
    let again = collapse_whitespace(&once.chars().collect());
    assert_eq!(once, "x y z");
    assert_eq!(again, once);
}
