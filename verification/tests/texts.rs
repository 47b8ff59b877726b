use shell_core::text::{
    copy_string, copy_strings, from_chars, is_whitespace, join_words, push_trimmed,
    skip_leading, skip_trailing, spells, split_words, to_chars, trim_text,
};

fn chars(s: &str) -> Vec<char> {
    s.chars().collect()
}

#[test]
fn a_string_and_its_characters() {
    assert_eq!(to_chars("héllo ✓"), chars("héllo ✓"));
    assert_eq!(to_chars(""), Vec::<char>::new());
}

#[test]
fn characters_make_a_string() {
    let v = chars("héllo ✓ world");
    assert_eq!(from_chars(&v, 0, v.len()), "héllo ✓ world");
    assert_eq!(from_chars(&v, 6, 7), "✓");
    assert_eq!(from_chars(&v, 3, 3), "");
    assert_eq!(from_chars(&v, 8, 13), "world");
}

#[test]
fn copies_are_equal() {
    assert_eq!(copy_string(&"a b".to_string()), "a b");
    let v = vec!["a".to_string(), String::new(), "✓".to_string()];
    assert_eq!(copy_strings(&v), v);
}

#[test]
fn texts_are_compared_character_by_character() {
    assert!(spells(&chars("echo"), "echo"));
    assert!(!spells(&chars("echo"), "ech"));
    assert!(!spells(&chars("ech"), "echo"));
    assert!(!spells(&chars("echa"), "echo"));
    assert!(spells(&chars(""), ""));
    assert!(!spells(&chars(""), "x"));
}

#[test]
fn whitespace_is_what_the_standard_library_calls_whitespace() {
    for code in 0..=0x10FFFFu32 {
        if let Some(c) = char::from_u32(code) {
            assert_eq!(is_whitespace(c), c.is_whitespace(), "U+{:04X}", code);
        }
    }
}

#[test]
fn trimming_agrees_with_the_standard_library() {
    let samples = [
        "",
        " ",
        "abc",
        "  abc",
        "abc  ",
        " \t abc def \r\n",
        "\u{a0}x\u{3000}",
        "\u{2003}\u{2028}",
        "a \u{85} b",
        "\u{b}\u{c}word\u{1680}",
    ];
    for s in samples {
        assert_eq!(trim_text(s), s.trim());
        let v = chars(s);
        let start = skip_leading(&v, 0, v.len());
        assert_eq!(from_chars(&v, start, v.len()), s.trim_start());
        let end = skip_trailing(&v, 0, v.len());
        assert_eq!(from_chars(&v, 0, end), s.trim_end());
    }
}

#[test]
fn trimming_stays_within_its_range() {
    let v = chars("ab  cd  ef");
    assert_eq!(skip_leading(&v, 2, 6), 4);
    assert_eq!(skip_trailing(&v, 2, 8), 6);
    assert_eq!(skip_leading(&v, 6, 8), 8);
    assert_eq!(skip_trailing(&v, 6, 8), 6);
    assert_eq!(skip_leading(&v, 3, 3), 3);
}

#[test]
fn a_trimmed_text_is_kept_unless_it_is_blank() {
    let v = chars("  ab  |   | c");
    let mut done: Vec<String> = Vec::new();
    push_trimmed(&v, 0, 6, &mut done);
    push_trimmed(&v, 7, 10, &mut done);
    push_trimmed(&v, 11, 13, &mut done);
    push_trimmed(&v, 5, 5, &mut done);
    assert_eq!(done, vec!["ab".to_string(), "c".to_string()]);
}

#[test]
fn words_are_split_at_whitespace_as_the_standard_library_splits_them() {
    let samples = ["", "   ", "one", " a  b\tc\n", "x\u{3000}y  z ", "\u{a0}"];
    for s in samples {
        let v = chars(s);
        let expected: Vec<String> = s.split_whitespace().map(|w| w.to_string()).collect();
        assert_eq!(split_words(&v, 0, v.len()), expected);
    }
    let v = chars("ab cd ef");
    assert_eq!(split_words(&v, 1, 7), vec!["b".to_string(), "cd".to_string(), "e".to_string()]);
}

#[test]
fn words_are_joined_with_one_space() {
    let words = |items: &[&str]| -> Vec<String> { items.iter().map(|s| s.to_string()).collect() };
    assert_eq!(join_words(&words(&[])), "");
    assert_eq!(join_words(&words(&["a"])), "a");
    assert_eq!(join_words(&words(&["a", "b", "c"])), "a b c");
    assert_eq!(join_words(&words(&["a  b", "", "c"])), "a  b  c");
    assert_eq!(join_words(&words(&["", ""])), " ");
}
