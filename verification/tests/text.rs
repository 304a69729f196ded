use poe2openai::text::{
    chars_of, contains, find_from, join, matches_at, replace, same_text, split, split_whitespace,
    starts_with, string_of, strip_prefix, trim_start_matches,
};

#[test]
fn replaces_every_occurrence() {
    assert_eq!(replace("a[x]b[x]", "[x]", "(u)"), "a(u)b(u)");
    assert_eq!(replace("aaa", "aa", "b"), "ba");
    assert_eq!(replace("", "a", "b"), "");
    assert_eq!(replace("\\\"hi\\\"", "\\\"", "\""), "\"hi\"");
}

#[test]
fn splits_at_every_separator() {
    assert_eq!(split("a;base64,b;base64,c", ";base64,"), vec!["a", "b", "c"]);
    assert_eq!(split("abc", ";"), vec!["abc"]);
    assert_eq!(split(";", ";"), vec!["", ""]);
}

#[test]
fn joins_with_a_separator() {
    assert_eq!(join(&vec!["a".to_string(), "b".to_string()], "\n"), "a\nb");
    assert_eq!(join(&vec![], "\n"), "");
    assert_eq!(join(&vec!["x".to_string()], "\n"), "x");
}

#[test]
fn trims_every_copy_of_a_prefix() {
    assert_eq!(trim_start_matches("data:data:image/png", "data:"), "image/png");
}

#[test]
fn words_are_separated_by_any_white_space() {
    assert_eq!(split_whitespace("  a\tb\u{3000}c\n"), vec!["a", "b", "c"]);
    assert_eq!(split_whitespace(" \n"), Vec::<String>::new());
    for c in "\u{9}\u{a}\u{b}\u{c}\u{d} \u{85}\u{a0}\u{1680}\u{2000}\u{2005}\u{200a}\u{2028}\u{2029}\u{202f}\u{205f}".chars() {
        assert_eq!(split_whitespace(&format!("a{}b", c)), vec!["a", "b"]);
    }
    for c in "\u{8}\u{e}\u{200b}\u{180e}\u{feff}_".chars() {
        assert_eq!(split_whitespace(&format!("a{}b", c)).len(), 1);
    }
}

#[test]
fn finds_the_first_occurrence() {
    let text = chars_of("xabab");
    let p = chars_of("ab");
    assert_eq!(find_from(&text, &p, 0), Some(1));
    assert_eq!(find_from(&text, &p, 2), Some(3));
    assert_eq!(find_from(&text, &p, 4), None);
    assert!(matches_at(&text, &p, 3));
    assert!(!matches_at(&text, &p, 4));
    assert_eq!(string_of(&text, 1, 3), "ab");
}

#[test]
fn compares_beginnings() {
    assert!(starts_with("Bearer x", "Bearer "));
    assert!(!starts_with("bearer x", "Bearer "));
    assert_eq!(strip_prefix("Bearer x", "Bearer "), Some("x".to_string()));
    assert_eq!(strip_prefix("x", "Bearer "), None);
    assert!(contains("a rate limit b", "rate limit"));
    assert!(!contains("a", "rate limit"));
    assert!(same_text("a", "a") && !same_text("a", "A"));
}
