use shell_core::lexer::{parse_args, tokenize};

fn strings(items: &[&str]) -> Vec<String> {
    items.iter().map(|s| s.to_string()).collect()
}

#[test]
fn words_are_split_at_spaces() {
    assert_eq!(parse_args("echo hello world"), strings(&["echo", "hello", "world"]));
}

#[test]
fn quotes_keep_spaces_and_escapes_keep_quotes() {
    assert_eq!(parse_args("echo 'a  b'   \"c\\\"d\""), strings(&["echo", "a  b", "c\"d"]));
}

#[test]
fn runs_of_spaces_collapse() {
    assert_eq!(parse_args("a     b"), parse_args("a b"));
    assert_eq!(parse_args("a     b"), strings(&["a", "b"]));
}

#[test]
fn leading_and_trailing_spaces_make_no_token() {
    assert_eq!(parse_args("   ls   -l   "), strings(&["ls", "-l"]));
    assert_eq!(parse_args("     "), Vec::<String>::new());
    assert_eq!(parse_args(""), Vec::<String>::new());
}

#[test]
fn a_tab_is_no_separator() {
    assert_eq!(parse_args("a\tb c"), strings(&["a\tb", "c"]));
}

#[test]
fn single_quotes_keep_everything() {
    assert_eq!(parse_args("'a \\ \" | > b'"), strings(&["a \\ \" | > b"]));
}

#[test]
fn single_quoted_text_comes_back_unchanged() {
    for text in ["x", "hello world", "\\n", "\"quoted\"", "a|b>c", "  ", "\\"] {
        let quoted = format!("'{}'", text);
        assert_eq!(parse_args(&quoted), strings(&[text]));
    }
}

#[test]
fn empty_quotes_alone_make_no_token() {
    assert_eq!(parse_args("''"), Vec::<String>::new());
    assert_eq!(parse_args("\"\""), Vec::<String>::new());
    assert_eq!(parse_args("echo '' x"), strings(&["echo", "x"]));
}

#[test]
fn empty_quotes_do_not_separate() {
    assert_eq!(parse_args("a''b"), strings(&["ab"]));
    assert_eq!(parse_args("a\"\"b"), strings(&["ab"]));
}

#[test]
fn adjacent_segments_form_one_token() {
    assert_eq!(parse_args("a\"b c\"d'e'"), strings(&["ab cde"]));
}

#[test]
fn double_quotes_escape_only_quote_and_backslash() {
    assert_eq!(parse_args("\"a\\\"b\""), strings(&["a\"b"]));
    assert_eq!(parse_args("\"a\\\\b\""), strings(&["a\\b"]));
    assert_eq!(parse_args("\"a\\nb\""), strings(&["a\\nb"]));
    assert_eq!(parse_args("\"a\\ b\""), strings(&["a\\ b"]));
    assert_eq!(parse_args("\"it's\""), strings(&["it's"]));
    assert_eq!(parse_args("\"a\\'b\""), strings(&["a\\'b"]));
}

#[test]
fn a_backslash_outside_quotes_makes_the_next_character_literal() {
    assert_eq!(parse_args("a\\ b"), strings(&["a b"]));
    assert_eq!(parse_args("\\'x"), strings(&["'x"]));
    assert_eq!(parse_args("\\\"x"), strings(&["\"x"]));
    assert_eq!(parse_args("a\\\\b"), strings(&["a\\b"]));
    assert_eq!(parse_args("a\\|b"), strings(&["a|b"]));
    assert_eq!(parse_args("\\n"), strings(&["n"]));
}

#[test]
fn an_open_quote_closes_at_the_end() {
    assert_eq!(parse_args("echo 'abc def"), strings(&["echo", "abc def"]));
    assert_eq!(parse_args("echo \"abc def"), strings(&["echo", "abc def"]));
}

#[test]
fn a_backslash_at_the_end() {
    assert_eq!(parse_args("abc\\"), strings(&["abc"]));
    assert_eq!(parse_args("\\"), Vec::<String>::new());
    assert_eq!(parse_args("\"abc\\"), strings(&["abc\\"]));
}

#[test]
fn operators_are_ordinary_characters_to_the_lexer() {
    assert_eq!(parse_args("a | b > c"), strings(&["a", "|", "b", ">", "c"]));
}

#[test]
fn characters_beyond_ascii_pass_through() {
    assert_eq!(parse_args("echo héllo 'wörld ✓'"), strings(&["echo", "héllo", "wörld ✓"]));
}

#[test]
fn tokenize_works_on_characters() {
    let chars: Vec<char> = "ls  'a b'".chars().collect();
    assert_eq!(tokenize(&chars), strings(&["ls", "a b"]));
}

#[test]
fn a_space_outside_quotes_separates_the_tokens_on_its_sides() {
    let pairs = [
        ("echo 'a b'", "c\\ d \"e\""),
        ("", "x"),
        ("x", ""),
        ("a  b ", " c"),
        ("\"q\"", "'r s' t"),
    ];
    for (a, b) in pairs {
        let mut expected = parse_args(a);
        expected.extend(parse_args(b));
        assert_eq!(parse_args(&format!("{} {}", a, b)), expected);
    }
}

#[test]
fn a_word_that_needs_no_quoting_is_one_token() {
    for word in ["ls", "-la", "/usr/bin/env", "a|b>c", "2>&1", "héllo", "a\tb"] {
        assert_eq!(parse_args(word), strings(&[word]));
    }
}
