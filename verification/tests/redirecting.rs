use shell_core::redirect::{
    find_operator, parse_filename, parse_redirection, Fd, Operator, RedirectTarget, Redirection,
};

fn target(path: &str, append: bool) -> Option<RedirectTarget> {
    Some(RedirectTarget { path: path.to_string(), append })
}

fn parsed(command: &str, stdout: Option<RedirectTarget>, stderr: Option<RedirectTarget>) -> (String, Option<Redirection>) {
    (command.to_string(), Some(Redirection { stdout, stderr }))
}

#[test]
fn no_operator_no_redirection() {
    assert_eq!(parse_redirection("echo hello"), ("echo hello".to_string(), None));
    assert_eq!(parse_redirection(""), (String::new(), None));
}

#[test]
fn each_operator_has_its_descriptor_and_mode() {
    assert_eq!(parse_redirection("pwd > out"), parsed("pwd", target("out", false), None));
    assert_eq!(parse_redirection("pwd 1> out"), parsed("pwd", target("out", false), None));
    assert_eq!(parse_redirection("pwd >> out"), parsed("pwd", target("out", true), None));
    assert_eq!(parse_redirection("pwd 1>> out"), parsed("pwd", target("out", true), None));
    assert_eq!(parse_redirection("pwd 2> err"), parsed("pwd", None, target("err", false)));
    assert_eq!(parse_redirection("pwd 2>> err"), parsed("pwd", None, target("err", true)));
}

#[test]
fn the_file_name_may_follow_at_once() {
    assert_eq!(parse_redirection("pwd>out"), parsed("pwd", target("out", false), None));
    assert_eq!(parse_redirection("pwd>>out"), parsed("pwd", target("out", true), None));
    assert_eq!(parse_redirection("ls 2>err"), parsed("ls", None, target("err", false)));
}

#[test]
fn both_descriptors_can_be_redirected() {
    assert_eq!(
        parse_redirection("ls -1 /nonexistent > out 2>> err"),
        parsed("ls -1 /nonexistent", target("out", false), target("err", true))
    );
    assert_eq!(
        parse_redirection("ls >out2>err"),
        parsed("ls", target("out", false), target("err", false))
    );
}

#[test]
fn the_last_redirection_of_a_descriptor_wins() {
    assert_eq!(
        parse_redirection("echo x > a > b >> c"),
        parsed("echo x", target("c", true), None)
    );
    assert_eq!(
        parse_redirection("echo x 2>> a 1> b 2> c"),
        parsed("echo x", target("b", false), target("c", false))
    );
}

#[test]
fn an_operator_without_file_name_sets_nothing() {
    assert_eq!(parse_redirection("echo x >"), ("echo x".to_string(), None));
    assert_eq!(parse_redirection("echo x >   "), ("echo x".to_string(), None));
    assert_eq!(parse_redirection("echo x > a >"), parsed("echo x", target("a", false), None));
    assert_eq!(parse_redirection("echo x > 2> e"), parsed("echo x", None, target("e", false)));
}

#[test]
fn digits_are_ordinary_unless_an_operator_follows() {
    assert_eq!(parse_redirection("echo 1 2 3"), ("echo 1 2 3".to_string(), None));
    assert_eq!(parse_redirection("echo 12"), ("echo 12".to_string(), None));
    assert_eq!(parse_redirection("echo 3> f"), parsed("echo 3", target("f", false), None));
    assert_eq!(parse_redirection("echo a1> f"), parsed("echo a", target("f", false), None));
    assert_eq!(parse_redirection("echo x > file1"), parsed("echo x", target("file1", false), None));
    assert_eq!(parse_redirection("echo x > f2 y"), parsed("echo x  y", target("f2", false), None));
}

#[test]
fn a_file_name_ends_at_the_next_operator() {
    assert_eq!(
        parse_redirection("echo x > out1> other"),
        parsed("echo x", target("other", false), None)
    );
    assert_eq!(
        parse_redirection("echo x > a2> b"),
        parsed("echo x", target("a", false), target("b", false))
    );
}

#[test]
fn quoted_operators_stay_in_the_command() {
    assert_eq!(parse_redirection("echo 'a > b'"), ("echo 'a > b'".to_string(), None));
    assert_eq!(parse_redirection("echo \"a 2> b\""), ("echo \"a 2> b\"".to_string(), None));
    assert_eq!(parse_redirection("echo a \\> b"), ("echo a \\> b".to_string(), None));
    assert_eq!(parse_redirection("echo \"a\\\" > b\""), ("echo \"a\\\" > b\"".to_string(), None));
}

#[test]
fn quotes_in_a_file_name_are_kept() {
    assert_eq!(parse_redirection("echo x > 'f'"), parsed("echo x", target("'f'", false), None));
    assert_eq!(parse_redirection("echo x > \"f\"g"), parsed("echo x", target("\"f\"g", false), None));
}

#[test]
fn a_quoted_space_does_not_end_a_file_name() {
    assert_eq!(
        parse_redirection("echo hi > 'a b'"),
        parsed("echo hi", target("'a b'", false), None)
    );
    assert_eq!(
        parse_redirection("echo x > \"my file\""),
        parsed("echo x", target("\"my file\"", false), None)
    );
    assert_eq!(
        parse_redirection("echo x > a\\ b c"),
        parsed("echo x  c", target("a\\ b", false), None)
    );
    assert_eq!(
        parse_redirection("echo x >> 'a b'c d 2> \"e f\""),
        parsed("echo x  d", target("'a b'c", true), target("\"e f\"", false))
    );
}

#[test]
fn a_quoted_operator_does_not_end_a_file_name() {
    assert_eq!(
        parse_redirection("echo x > 'a>b' 2> \"c2>d\""),
        parsed("echo x", target("'a>b'", false), target("\"c2>d\"", false))
    );
    assert_eq!(parse_redirection("echo x > a\\>b"), parsed("echo x", target("a\\>b", false), None));
}

#[test]
fn an_open_quote_in_a_file_name_runs_to_the_end() {
    assert_eq!(
        parse_redirection("echo x > 'a b 2> c"),
        parsed("echo x", target("'a b 2> c", false), None)
    );
}

#[test]
fn the_command_goes_on_outside_quotes_behind_a_file_name() {
    assert_eq!(
        parse_redirection("echo > 'a b' x > c"),
        parsed("echo  x", target("c", false), None)
    );
}

#[test]
fn what_follows_the_file_name_stays_in_the_command() {
    assert_eq!(parse_redirection("echo a > f b"), parsed("echo a  b", target("f", false), None));
}

#[test]
fn trailing_whitespace_of_the_command_is_removed() {
    assert_eq!(parse_redirection("echo a  \t"), ("echo a".to_string(), None));
    assert_eq!(parse_redirection("  echo a"), ("  echo a".to_string(), None));
}

#[test]
fn a_file_name_is_trimmed() {
    assert_eq!(parse_redirection("echo a > \tf\t"), parsed("echo a", target("f", false), None));
}

#[test]
fn parse_filename_moves_the_position() {
    let chars: Vec<char> = "> out rest".chars().collect();
    let mut pos = 2usize;
    assert_eq!(parse_filename(&chars, &mut pos), "out");
    assert_eq!(pos, 5);
    let mut pos = 5usize;
    assert_eq!(parse_filename(&chars, &mut pos), "");
    assert_eq!(pos, 5);
    let chars: Vec<char> = "a1b2>c".chars().collect();
    let mut pos = 0usize;
    assert_eq!(parse_filename(&chars, &mut pos), "a1b");
    assert_eq!(pos, 3);
    let mut pos = chars.len();
    assert_eq!(parse_filename(&chars, &mut pos), "");
    assert_eq!(pos, chars.len());
    let chars: Vec<char> = "'a b'c d".chars().collect();
    let mut pos = 0usize;
    assert_eq!(parse_filename(&chars, &mut pos), "'a b'c");
    assert_eq!(pos, 6);
}

#[test]
fn find_operator_reads_the_six_operators() {
    let at = |text: &str, i: usize| {
        let chars: Vec<char> = text.chars().collect();
        find_operator(&chars, i)
    };
    assert_eq!(at(">", 0), Some(Operator { fd: Fd::Stdout, append: false, len: 1 }));
    assert_eq!(at(">>", 0), Some(Operator { fd: Fd::Stdout, append: true, len: 2 }));
    assert_eq!(at("1>", 0), Some(Operator { fd: Fd::Stdout, append: false, len: 2 }));
    assert_eq!(at("1>>", 0), Some(Operator { fd: Fd::Stdout, append: true, len: 3 }));
    assert_eq!(at("2>", 0), Some(Operator { fd: Fd::Stderr, append: false, len: 2 }));
    assert_eq!(at("2>>", 0), Some(Operator { fd: Fd::Stderr, append: true, len: 3 }));
    assert_eq!(at("1", 0), None);
    assert_eq!(at("2 >", 0), None);
    assert_eq!(at("3>", 0), None);
    assert_eq!(at("a>", 1), Some(Operator { fd: Fd::Stdout, append: false, len: 1 }));
    assert_eq!(at(">", 1), None);
    assert_eq!(at("", 0), None);
}

#[test]
fn each_descriptor_goes_to_the_last_target_written_for_it() {
    let operators = [">", "1>", ">>", "1>>", "2>", "2>>"];
    let names = ["a", "b", "c", "d", "e", "f", "g"];
    for first in 0..operators.len() {
        for count in 1..=5usize {
            let mut line = String::from("cmd");
            let mut stdout: Option<RedirectTarget> = None;
            let mut stderr: Option<RedirectTarget> = None;
            for k in 0..count {
                let op = operators[(first + 5 * k + k * k) % operators.len()];
                let name = names[(first + 3 * k) % names.len()];
                line.push_str(&format!(" {} {}", op, name));
                let written = RedirectTarget { path: name.to_string(), append: op.ends_with(">>") };
                if op.starts_with('2') {
                    stderr = Some(written);
                } else {
                    stdout = Some(written);
                }
            }
            assert_eq!(
                parse_redirection(&line),
                ("cmd".to_string(), Some(Redirection { stdout, stderr }))
            );
        }
    }
}
