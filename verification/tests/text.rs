use youtubeopen::text::{
    concat2, concat3, copy_or, copy_text, is_white_char, same_text, text_contains, text_first_word,
    text_join, text_last_line, text_replace, text_starts_with, text_strip_prefix, text_trim,
    text_until, to_chars,
};

const SAMPLES: [&str; 10] = [
    "",
    " ",
    "word",
    "  two words \n",
    "\u{3000}wide\u{2003}space\u{85}",
    "a;b;c",
    "pppp",
    "line one\r\nline two\r\n\n",
    "\u{1f600} smile \u{e9}",
    "\u{200b}no space\u{feff}",
];

#[test]
fn white_space_is_that_of_std() {
    for n in 0..=0x10ffffu32 {
        if let Some(c) = char::from_u32(n) {
            assert_eq!(is_white_char(c), c.is_whitespace(), "{:x}", n);
        }
    }
}

#[test]
fn text_functions_agree_with_std() {
    for s in SAMPLES {
        assert_eq!(to_chars(s), s.chars().collect::<Vec<char>>());
        assert_eq!(text_trim(s), s.trim());
        assert_eq!(text_first_word(s), s.split_whitespace().next());
        assert_eq!(text_last_line(s), s.trim().lines().last());
        for part in ["p", "pp", "w", " ", "line", "\u{e9}", "zz"] {
            assert_eq!(text_contains(s, part), s.contains(part));
            assert_eq!(text_starts_with(s, part), s.starts_with(part));
            assert_eq!(text_strip_prefix(s, part), s.strip_prefix(part));
            assert_eq!(text_replace(s, part, "p0"), s.replace(part, "p0"));
            assert_eq!(text_replace(s, part, ""), s.replace(part, ""));
        }
        for stop in ['p', ';', ' ', '\n', '\u{e9}'] {
            assert_eq!(Some(text_until(s, stop)), s.split(stop).next());
        }
        for other in SAMPLES {
            assert_eq!(same_text(s, other), s == other);
        }
    }
}

#[test]
fn the_empty_text_is_everywhere() {
    assert!(text_contains("", ""));
    assert!(text_contains("abc", ""));
    assert!(text_starts_with("abc", ""));
    assert_eq!(text_strip_prefix("abc", ""), Some("abc"));
}

#[test]
fn a_first_word_is_a_word() {
    assert_eq!(text_first_word(" \t token rest\n"), Some("token"));
    assert_eq!(text_first_word("\n \u{a0}"), None);
}

#[test]
fn joins_and_concatenates() {
    let parts: Vec<String> = vec!["a".to_string(), "".to_string(), "b".to_string()];
    assert_eq!(text_join(&parts, "; "), "a; ; b");
    assert_eq!(text_join(&Vec::new(), "; "), "");
    assert_eq!(concat2("a", "b"), "ab");
    assert_eq!(concat3("a", "", "c"), "ac");
    assert_eq!(copy_text(&Some("x".to_string())), Some("x".to_string()));
    assert_eq!(copy_text(&None), None);
    assert_eq!(copy_or(&None, "other"), "other");
    assert_eq!(copy_or(&Some("".to_string()), "other"), "");
}
