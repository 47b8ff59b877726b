use shell_core::dispatch::{
    dispatch, dispatch_history, is_builtin, parse_command, parse_stage, CommandAction, Stage,
};
use shell_core::pathcache::PathCache;
use shell_core::redirect::{RedirectTarget, Redirection};

fn strings(items: &[&str]) -> Vec<String> {
    items.iter().map(|s| s.to_string()).collect()
}

fn cache() -> PathCache {
    let mut cache = PathCache::new();
    cache.insert_first("ls".to_string(), "/bin/ls".to_string());
    cache.insert_first("tr".to_string(), "/usr/bin/tr".to_string());
    cache.insert_first("wc".to_string(), "/usr/bin/wc".to_string());
    cache.insert_first("echo".to_string(), "/bin/echo".to_string());
    cache.insert_first("pwd".to_string(), "/bin/pwd".to_string());
    cache
}

fn out(path: &str, append: bool) -> Option<Redirection> {
    Some(Redirection {
        stdout: Some(RedirectTarget { path: path.to_string(), append }),
        stderr: None,
    })
}

fn err(path: &str, append: bool) -> Option<Redirection> {
    Some(Redirection {
        stdout: None,
        stderr: Some(RedirectTarget { path: path.to_string(), append }),
    })
}

#[test]
fn the_six_builtins_are_builtins() {
    for name in ["echo", "exit", "type", "pwd", "cd", "history"] {
        assert!(is_builtin(name));
    }
    for name in ["", "ls", "Echo", "echo ", "ech", "echoo", "histor", "c", "cdd"] {
        assert!(!is_builtin(name));
    }
}

#[test]
fn builtins_are_dispatched_by_name() {
    let c = cache();
    assert_eq!(parse_command("exit", &c), (CommandAction::Exit, None));
    assert_eq!(
        parse_command("echo hello world", &c),
        (CommandAction::Echo(strings(&["hello", "world"])), None)
    );
    assert_eq!(parse_command("pwd", &c), (CommandAction::Pwd, None));
    assert_eq!(parse_command("type echo", &c), (CommandAction::Type(strings(&["echo"])), None));
    assert_eq!(parse_command("cd /tmp", &c), (CommandAction::Cd(strings(&["/tmp"])), None));
    assert_eq!(parse_command("cd", &c), (CommandAction::Cd(vec![]), None));
}

#[test]
fn a_builtin_name_never_becomes_a_program() {
    let mut c = PathCache::new();
    for name in ["echo", "exit", "type", "pwd", "cd", "history"] {
        c.insert_first(name.to_string(), format!("/bin/{}", name));
    }
    for name in ["echo", "exit", "type", "pwd", "cd", "history"] {
        let action = dispatch(name.to_string(), strings(&["x"]), &c);
        assert!(!matches!(action, CommandAction::External { .. }));
        let (action, _) = parse_command(name, &c);
        assert!(!matches!(action, CommandAction::External { .. }));
    }
}

#[test]
fn a_cached_name_becomes_a_program_with_its_path() {
    assert_eq!(
        parse_command("ls -1 /nonexistent 2> /tmp/e.out", &cache()),
        (
            CommandAction::External {
                name: "ls".to_string(),
                path: "/bin/ls".to_string(),
                args: strings(&["-1", "/nonexistent"]),
            },
            err("/tmp/e.out", false)
        )
    );
}

#[test]
fn any_other_name_is_unknown() {
    assert_eq!(
        parse_command("nosuch a b", &cache()),
        (CommandAction::Unknown("nosuch".to_string()), None)
    );
    assert_eq!(
        dispatch("ls".to_string(), vec![], &PathCache::new()),
        CommandAction::Unknown("ls".to_string())
    );
}

#[test]
fn the_forms_of_history() {
    assert_eq!(dispatch_history(&vec![]), CommandAction::History(None));
    assert_eq!(dispatch_history(&strings(&["2"])), CommandAction::History(Some(2)));
    assert_eq!(dispatch_history(&strings(&["0"])), CommandAction::History(Some(0)));
    assert_eq!(dispatch_history(&strings(&["+7"])), CommandAction::History(Some(7)));
    assert_eq!(dispatch_history(&strings(&["abc"])), CommandAction::History(None));
    assert_eq!(dispatch_history(&strings(&["-3"])), CommandAction::History(None));
    assert_eq!(dispatch_history(&strings(&["5", "-r", "f"])), CommandAction::History(Some(5)));
    assert_eq!(
        dispatch_history(&strings(&["-r", "f"])),
        CommandAction::HistoryRead("f".to_string())
    );
    assert_eq!(
        dispatch_history(&strings(&["-w", "f", "g"])),
        CommandAction::HistoryWrite("f".to_string())
    );
    assert_eq!(
        dispatch_history(&strings(&["-a", "f"])),
        CommandAction::HistoryAppend("f".to_string())
    );
    for option in ["-r", "-w", "-a"] {
        assert_eq!(
            dispatch_history(&strings(&[option])),
            CommandAction::Unknown("history".to_string())
        );
    }
    assert_eq!(
        parse_command("history -w /tmp/h", &cache()),
        (CommandAction::HistoryWrite("/tmp/h".to_string()), None)
    );
}

#[test]
fn a_redirection_goes_with_its_command() {
    let c = cache();
    assert_eq!(parse_command("pwd > /tmp/p.out", &c), (CommandAction::Pwd, out("/tmp/p.out", false)));
    assert_eq!(
        parse_command("echo one >> /tmp/a", &c),
        (CommandAction::Echo(strings(&["one"])), out("/tmp/a", true))
    );
}

#[test]
fn a_line_without_tokens_is_nothing() {
    let c = cache();
    assert_eq!(parse_command("", &c), (CommandAction::Nothing, None));
    assert_eq!(parse_command("   ", &c), (CommandAction::Nothing, None));
    assert_eq!(parse_command("''", &c), (CommandAction::Nothing, None));
    assert_eq!(parse_command("> file", &c), (CommandAction::Nothing, None));
}

#[test]
fn a_line_of_separators_alone_is_its_own_stage() {
    assert_eq!(
        parse_command(" | ", &cache()),
        (CommandAction::Unknown("|".to_string()), None)
    );
}

#[test]
fn stages_make_a_pipeline() {
    let (action, redirection) = parse_command("echo a | tr a-z A-Z | wc -c", &cache());
    assert_eq!(redirection, None);
    assert_eq!(
        action,
        CommandAction::Pipeline(vec![
            Stage { name: "echo".to_string(), args: strings(&["a"]), redirection: None },
            Stage { name: "tr".to_string(), args: strings(&["a-z", "A-Z"]), redirection: None },
            Stage { name: "wc".to_string(), args: strings(&["-c"]), redirection: None },
        ])
    );
}

#[test]
fn a_stage_of_a_pipeline_keeps_its_redirections() {
    let (action, redirection) = parse_command("ls 2> e | wc > n", &cache());
    assert_eq!(redirection, None);
    assert_eq!(
        action,
        CommandAction::Pipeline(vec![
            Stage { name: "ls".to_string(), args: vec![], redirection: err("e", false) },
            Stage { name: "wc".to_string(), args: vec![], redirection: out("n", false) },
        ])
    );
}

#[test]
fn stages_without_tokens_are_dropped() {
    let c = cache();
    assert_eq!(
        parse_command("ls | '' | wc", &c).0,
        CommandAction::Pipeline(vec![
            Stage { name: "ls".to_string(), args: vec![], redirection: None },
            Stage { name: "wc".to_string(), args: vec![], redirection: None },
        ])
    );
    assert_eq!(
        parse_command("echo hi | ''", &c),
        (CommandAction::Echo(strings(&["hi"])), None)
    );
    assert_eq!(
        parse_command("| pwd > f", &c),
        (CommandAction::Pwd, out("f", false))
    );
}

#[test]
fn a_quoted_pipe_is_an_argument() {
    assert_eq!(
        parse_command("echo 'a | b'", &cache()),
        (CommandAction::Echo(strings(&["a | b"])), None)
    );
}

#[test]
fn a_line_that_starts_with_a_bang_goes_to_the_assistant() {
    let c = cache();
    assert_eq!(
        parse_command("!list  all\tfiles ", &c),
        (CommandAction::Ai(strings(&["list", "all", "files"])), None)
    );
    assert_eq!(parse_command("  ! x | y > z", &c), (CommandAction::Ai(strings(&["x", "|", "y", ">", "z"])), None));
    assert_eq!(parse_command("!", &c), (CommandAction::Ai(vec![]), None));
    assert_eq!(parse_command("echo !", &c), (CommandAction::Echo(strings(&["!"])), None));
}

#[test]
fn parse_stage_reads_name_arguments_and_redirections() {
    assert_eq!(
        parse_stage("wc -c > n"),
        Some(Stage { name: "wc".to_string(), args: strings(&["-c"]), redirection: out("n", false) })
    );
    assert_eq!(parse_stage("   "), None);
    assert_eq!(parse_stage("2> e"), None);
}

#[test]
fn a_line_without_a_pipe_is_dispatched_as_it_is() {
    let c = cache();
    assert_eq!(parse_command("\tx", &c), (CommandAction::Unknown("\tx".to_string()), None));
    assert_eq!(parse_command("\tls", &c), (CommandAction::Unknown("\tls".to_string()), None));
    assert_eq!(
        parse_command("  ls  -l  ", &c),
        (
            CommandAction::External {
                name: "ls".to_string(),
                path: "/bin/ls".to_string(),
                args: strings(&["-l"]),
            },
            None
        )
    );
    assert_eq!(
        parse_command("\u{3000}echo a", &c),
        (CommandAction::Unknown("\u{3000}echo".to_string()), None)
    );
}

#[test]
fn trailing_whitespace_of_a_command_is_dropped_before_it_is_lexed() {
    let c = cache();
    assert_eq!(parse_command("echo a\u{3000}", &c), (CommandAction::Echo(strings(&["a"])), None));
    assert_eq!(parse_command("echo a \t", &c), (CommandAction::Echo(strings(&["a"])), None));
}

#[test]
fn a_stage_cut_at_a_pipe_is_trimmed_before_it_is_dispatched() {
    assert_eq!(
        parse_command("\tls |", &cache()),
        (
            CommandAction::External {
                name: "ls".to_string(),
                path: "/bin/ls".to_string(),
                args: vec![],
            },
            None
        )
    );
}

#[test]
fn a_builtin_with_any_protected_rest_is_never_a_program() {
    let mut c = PathCache::new();
    for name in ["echo", "exit", "type", "pwd", "cd", "history"] {
        c.insert_first(name.to_string(), format!("/bin/{}", name));
    }
    let rests = ["", "x", "'a | b' \"c > d\"", "a\\|b \\> c", "-r", "-w f", "  many   words  ", "2\\>&1"];
    for name in ["echo", "exit", "type", "pwd", "cd", "history"] {
        for rest in rests {
            let line = if rest.is_empty() { name.to_string() } else { format!("{} {}", name, rest) };
            let (action, redirection) = parse_command(&line, &c);
            assert!(!matches!(action, CommandAction::External { .. }), "{}", line);
            assert!(!matches!(action, CommandAction::Pipeline(_)), "{}", line);
            assert_eq!(redirection, None);
            let args = shell_core::lexer::parse_args(rest.trim_end());
            assert_eq!(action, dispatch(name.to_string(), args, &c), "{}", line);
        }
    }
}

#[test]
fn a_name_that_is_no_builtin_goes_by_the_cache() {
    let c = cache();
    for line in ["ls -l 'a | b'", "wc", "tr a-z A-Z", "nosuch \"x > y\"", "lsx"] {
        let tokens = shell_core::lexer::parse_args(line);
        let (action, redirection) = parse_command(line, &c);
        assert_eq!(redirection, None);
        match c.resolve(&tokens[0]) {
            Some(path) => assert_eq!(
                action,
                CommandAction::External {
                    name: tokens[0].clone(),
                    path,
                    args: tokens[1..].to_vec()
                }
            ),
            None => assert_eq!(action, CommandAction::Unknown(tokens[0].clone())),
        }
    }
}
