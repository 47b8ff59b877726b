use shell_core::session::{assistant_request, assistant_task, is_yes, prompt_text};

fn strings(items: &[&str]) -> Vec<String> {
    items.iter().map(|s| s.to_string()).collect()
}

#[test]
fn the_plain_prompt() {
    assert_eq!(prompt_text(None, "src"), "$ ");
    assert_eq!(prompt_text(Some("false".to_string()), "src"), "$ ");
    assert_eq!(prompt_text(Some("TRUE".to_string()), "src"), "$ ");
    assert_eq!(prompt_text(Some("true ".to_string()), "src"), "$ ");
    assert_eq!(prompt_text(Some("1".to_string()), "src"), "$ ");
    assert_eq!(prompt_text(Some(String::new()), "src"), "$ ");
}

#[test]
fn the_prompt_with_the_directory() {
    assert_eq!(prompt_text(Some("true".to_string()), "src"), "[src] $ ");
    assert_eq!(prompt_text(Some("true".to_string()), "/"), "[/] $ ");
}

#[test]
fn the_task_is_the_words_joined() {
    assert_eq!(
        assistant_task(&strings(&["list", "all", "files"])),
        Some("list all files".to_string())
    );
    assert_eq!(assistant_task(&strings(&["x"])), Some("x".to_string()));
}

#[test]
fn no_words_no_task() {
    assert_eq!(assistant_task(&vec![]), None);
    assert_eq!(assistant_task(&strings(&[""])), None);
    assert_eq!(assistant_task(&strings(&["", " ", "\t"])), None);
}

#[test]
fn the_request_names_directory_and_task() {
    assert_eq!(
        assistant_request("/home/u", "list all files"),
        "Current directory: /home/u\nTask: list all files\nGenerate the shell command:"
    );
}

#[test]
fn yes_in_any_case_agrees() {
    for answer in ["y", "Y", "yes", "YES", "Yes", "yEs", " y \n", "\tyes\r\n"] {
        assert!(is_yes(answer));
    }
}

#[test]
fn anything_else_declines() {
    for answer in ["", "n", "no", "ye", "yess", "y es", "yeah", "ok", "1", "yEz", "9es", "Ÿ"] {
        assert!(!is_yes(answer));
    }
}

#[test]
fn agreement_is_what_trimming_and_lowering_the_case_gives() {
    let samples = ["y", "Y ", " yes", "yES", "Yes!", "", "no", "y\n", "YE", "ÝES", "yeſ", "\u{212a}"];
    for answer in samples {
        let lowered = answer.trim().to_lowercase();
        assert_eq!(is_yes(answer), lowered == "y" || lowered == "yes");
    }
}
