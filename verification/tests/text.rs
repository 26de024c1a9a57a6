use xd_tts::text::{
    is_blank_text, same_text, slice, split, split_ascii_whitespace, to_chars, to_text,
    to_lower_text, to_upper_text, trimmed, Separator,
};

fn chars(s: &str) -> Vec<char> {
    s.chars().collect()
}

fn strings(words: Vec<Vec<char>>) -> Vec<String> {
    words.iter().map(|w| w.iter().collect()).collect()
}

#[test]
fn text_is_trimmed() {
    assert_eq!(trimmed(&chars("  a b \t\n")), chars("a b"));
    assert_eq!(trimmed(&chars("\u{a0}x\u{3000}")), chars("x"));
    assert_eq!(trimmed(&chars("   ")), chars(""));
    assert_eq!(trimmed(&chars("")), chars(""));
    assert_eq!(trimmed(&chars("x")), chars("x"));
    assert!(is_blank_text(&chars(" \t")));
    assert!(is_blank_text(&chars("")));
    assert!(!is_blank_text(&chars(" . ")));
}

#[test]
fn text_is_split_into_words() {
    assert_eq!(
        strings(split_ascii_whitespace(&chars("  one two\tthree\n"))),
        vec!["one", "two", "three"]
    );
    assert_eq!(strings(split_ascii_whitespace(&chars(""))), Vec::<String>::new());
    assert_eq!(strings(split_ascii_whitespace(&chars(" \n "))), Vec::<String>::new());
    // a vertical tab is whitespace, though not for ASCII
    assert_eq!(
        strings(split_ascii_whitespace(&chars("a\u{b}b c"))),
        vec!["a\u{b}b", "c"]
    );
    assert_eq!(
        strings(split(Separator::Whitespace, &chars("a\u{b}b\u{2003}c"))),
        vec!["a", "b", "c"]
    );
    assert_eq!(
        strings(split(Separator::Space, &chars("a\tb  c "))),
        vec!["a\tb", "c"]
    );
}

#[test]
fn text_is_converted() {
    assert_eq!(to_chars("héllo"), chars("héllo"));
    assert_eq!(to_text(&chars("héllo")), "héllo");
    assert_eq!(to_upper_text(&chars("aZ é1")), chars("AZ é1"));
    assert_eq!(to_lower_text(&chars("aZ É1")), chars("az É1"));
    assert_eq!(slice(&chars("hello"), 1, 3), chars("el"));
    assert!(same_text(&chars("ab"), &chars("ab")));
    assert!(!same_text(&chars("ab"), &chars("abc")));
    assert!(!same_text(&chars("ab"), &chars("ac")));
}
