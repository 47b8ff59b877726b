//! What the shell says around a command: its prompt, and the exchange with
//! the assistant that turns a described task into a command.

use crate::text::{is_blank, join_words, joined, lemma_trim_empty_iff_blank, to_chars, trim, trim_text, views};
use vstd::prelude::*;
use vstd::string::*;

verus! {

/// Whether the prompt names the working directory: it does when the setting
/// is there and is exactly `true`.
pub open spec fn shows_directory(setting: Option<Seq<char>>) -> bool {
    setting == Some("true"@)
}

/// The prompt: `$ `, or `[<dir>] $ ` when the working directory is shown.
pub open spec fn prompt_of(setting: Option<Seq<char>>, dir: Seq<char>) -> Seq<char> {
    if shows_directory(setting) {
        "["@ + dir + "] $ "@
    } else {
        "$ "@
    }
}

/// The prompt under this setting, in the directory whose base name is
/// `dir`.
pub fn prompt_text(setting: Option<String>, dir: &str) -> (prompt: String)
    ensures
        prompt@ == prompt_of(
            match setting {
                Some(s) => Some(s@),
                None => None,
            },
            dir@,
        ),
{
    let shown = match setting {
        Some(s) => {
            let chars = to_chars(s.as_str());
            crate::text::spells(&chars, "true")
        },
        None => false,
    };
    if shown {
        let mut prompt = "[".to_owned();
        prompt.append(dir);
        prompt.append("] $ ");
        prompt
    } else {
        "$ ".to_owned()
    }
}

/// The task that the words after `!` describe: the words with one space
/// between them, or nothing when they say nothing.
pub open spec fn task_of_words(prompt: Seq<Seq<char>>) -> Option<Seq<char>> {
    if is_blank(joined(prompt)) {
        None
    } else {
        Some(joined(prompt))
    }
}

/// The description handed to the assistant, or `None` when there is none to
/// hand over.
pub fn assistant_task(prompt: &Vec<String>) -> (task: Option<String>)
    ensures
        match task {
            Some(t) => task_of_words(views(prompt@)) == Some(t@),
            None => task_of_words(views(prompt@)) is None,
        },
{
    let text = join_words(prompt);
    let rest = trim_text(text.as_str());
    proof {
        lemma_trim_empty_iff_blank(text@);
    }
    if rest.as_str().is_empty() {
        None
    } else {
        Some(text)
    }
}

/// The request sent to the assistant for a task, in the directory `cwd`.
pub open spec fn request_of(cwd: Seq<char>, task: Seq<char>) -> Seq<char> {
    "Current directory: "@ + cwd + "\nTask: "@ + task + "\nGenerate the shell command:"@
}

/// The request for `task`, asked from the directory `cwd`.
pub fn assistant_request(cwd: &str, task: &str) -> (request: String)
    ensures
        request@ == request_of(cwd@, task@),
{
    let mut request = "Current directory: ".to_owned();
    request.append(cwd);
    request.append("\nTask: ");
    request.append(task);
    request.append("\nGenerate the shell command:");
    request
}

/// Whether `c` is the letter `lower`, in either case. `lower` is a small
/// letter.
pub open spec fn is_letter(c: char, lower: char) -> bool {
    c == lower || c as u32 + 32 == lower as u32
}

/// Whether an answer, once trimmed, is `y` or `yes`, in any mix of cases.
pub open spec fn says_yes(answer: Seq<char>) -> bool {
    let t = trim(answer);
    ||| t.len() == 1 && is_letter(t[0], 'y')
    ||| t.len() == 3 && is_letter(t[0], 'y') && is_letter(t[1], 'e') && is_letter(t[2], 's')
}

fn same_letter(c: char, lower: char) -> (b: bool)
    ensures
        b == is_letter(c, lower),
{
    let wide: u64 = c as u64;
    c == lower || wide + 32 == lower as u64
}

/// Whether the user agreed to run the command that the assistant proposed.
pub fn is_yes(answer: &str) -> (b: bool)
    ensures
        b == says_yes(answer@),
{
    let text = trim_text(answer);
    let t = to_chars(text.as_str());
    if t.len() == 1 {
        same_letter(t[0], 'y')
    } else if t.len() == 3 {
        same_letter(t[0], 'y') && same_letter(t[1], 'e') && same_letter(t[2], 's')
    } else {
        false
    }
}

} // verus!
