use shell_core::splitter::parse_pipeline;

fn strings(items: &[&str]) -> Vec<String> {
    items.iter().map(|s| s.to_string()).collect()
}

#[test]
fn a_line_without_pipe_is_one_stage() {
    assert_eq!(parse_pipeline("echo hello"), strings(&["echo hello"]));
}

#[test]
fn stages_are_cut_at_pipes_and_trimmed() {
    assert_eq!(
        parse_pipeline("echo a | tr a-z A-Z | wc -c"),
        strings(&["echo a", "tr a-z A-Z", "wc -c"])
    );
    assert_eq!(parse_pipeline("a|b"), strings(&["a", "b"]));
    assert_eq!(parse_pipeline("  a  |\t b \u{3000}"), strings(&["a", "b"]));
}

#[test]
fn quoted_pipes_do_not_split() {
    assert_eq!(parse_pipeline("echo 'a | b'"), strings(&["echo 'a | b'"]));
    assert_eq!(parse_pipeline("echo \"a | b\" | wc"), strings(&["echo \"a | b\"", "wc"]));
}

#[test]
fn an_escaped_pipe_does_not_split() {
    assert_eq!(parse_pipeline("echo a \\| b"), strings(&["echo a \\| b"]));
    assert_eq!(parse_pipeline("echo \"a\\\" | b\""), strings(&["echo \"a\\\" | b\""]));
}

#[test]
fn a_backslash_in_single_quotes_escapes_nothing() {
    assert_eq!(parse_pipeline("echo 'a\\' | b"), strings(&["echo 'a\\'", "b"]));
}

#[test]
fn blank_stages_are_dropped() {
    assert_eq!(parse_pipeline("a || b"), strings(&["a", "b"]));
    assert_eq!(parse_pipeline("| a |"), strings(&["a"]));
    assert_eq!(parse_pipeline("a |   | b"), strings(&["a", "b"]));
}

#[test]
fn a_line_without_any_stage_comes_back_as_it_is() {
    assert_eq!(parse_pipeline(""), strings(&[""]));
    assert_eq!(parse_pipeline("   "), strings(&["   "]));
    assert_eq!(parse_pipeline(" | "), strings(&[" | "]));
}

#[test]
fn the_number_of_stages_is_the_number_of_pipes_plus_one() {
    for n in 1..20usize {
        let parts: Vec<String> = (0..n).map(|i| format!("cmd{} arg", i)).collect();
        let line = parts.join(" | ");
        assert_eq!(parse_pipeline(&line), parts);
    }
}

#[test]
fn a_line_without_an_open_pipe_is_one_stage_equal_to_the_line() {
    for line in [" a", "a ", "\tx", "  ls  -l  ", " echo 'a|b' ", "x \\| y ", "\u{3000}z", "\"|\""] {
        assert_eq!(parse_pipeline(line), strings(&[line]));
    }
}

#[test]
fn only_stages_cut_at_a_pipe_are_trimmed() {
    assert_eq!(parse_pipeline(" a | b "), strings(&["a", "b"]));
    assert_eq!(parse_pipeline("\ta |"), strings(&["a"]));
    assert_eq!(parse_pipeline("| \tb"), strings(&["b"]));
}
