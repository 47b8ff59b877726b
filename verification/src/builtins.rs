//! The built-in commands: what each of them writes, and where.
//!
//! Nothing here touches the process or the file system. Each function takes
//! what the caller found out (the working directory, the result of a path
//! lookup, the kind of a failure) and returns the text to write.

use crate::dispatch::{is_builtin, is_builtin_name};
use crate::number::{decimal, push_decimal};
use crate::redirect::Fd;
use crate::text::{
    copy_string, join_words, joined, keep_trimmed, push_trimmed, spells, to_chars, views,
};
use vstd::prelude::*;
use vstd::string::*;

verus! {

/// A text for one of the two output streams. The text ends its own lines.
#[derive(Clone, Debug, PartialEq, Eq)]
pub struct Message {
    pub to: Fd,
    pub text: String,
}

/// The model of a `Message`.
pub struct Note {
    pub to: Fd,
    pub text: Seq<char>,
}

impl View for Message {
    type V = Note;

    open spec fn view(&self) -> Note {
        Note { to: self.to, text: self.text@ }
    }
}

/// The model of an optional message.
pub open spec fn note_of(m: Option<Message>) -> Option<Note> {
    match m {
        Some(m) => Some(m@),
        None => None,
    }
}

/// A line of text: the text and a line feed.
pub open spec fn line(text: Seq<char>) -> Seq<char> {
    text.push('\n')
}

/// What `echo` writes: its arguments with one space between them, and a
/// line feed. Nothing in the arguments is interpreted.
pub open spec fn echo_text(args: Seq<Seq<char>>) -> Seq<char> {
    line(joined(args))
}

/// The output of `echo` for these arguments.
pub fn echo_message(args: &Vec<String>) -> (m: Message)
    ensures
        m@ == (Note { to: Fd::Stdout, text: echo_text(views(args@)) }),
{
    let mut text = join_words(args);
    text.push('\n');
    Message { to: Fd::Stdout, text }
}

/// The output of `pwd` in the working directory `cwd`.
pub fn pwd_message(cwd: &str) -> (m: Message)
    ensures
        m@ == (Note { to: Fd::Stdout, text: line(cwd@) }),
{
    let mut text = cwd.to_owned();
    text.push('\n');
    Message { to: Fd::Stdout, text }
}

/// What `type` says of `name`, where `found` is the path that a lookup on
/// the search path gave for it: nothing for an empty name; that it is a
/// built-in, whatever the lookup gave; else where it was found; else, on
/// standard error, that it was not.
pub open spec fn type_note(name: Seq<char>, found: Option<Seq<char>>) -> Option<Note> {
    if name.len() == 0 {
        None
    } else if is_builtin_name(name) {
        Some(Note { to: Fd::Stdout, text: line(name + " is a shell builtin"@) })
    } else {
        match found {
            Some(path) => Some(Note { to: Fd::Stdout, text: line(name + " is "@ + path) }),
            None => Some(Note { to: Fd::Stderr, text: line(name + ": not found"@) }),
        }
    }
}

/// The name that `type` is asked about: its first argument, if it has one.
pub fn type_target(args: &Vec<String>) -> (name: Option<String>)
    ensures
        name is Some <==> args.len() > 0,
        name matches Some(n) ==> n@ == args@[0]@,
{
    if args.len() > 0 {
        Some(copy_string(&args[0]))
    } else {
        None
    }
}

/// The output of `type` for `name`. `found` is the path that a lookup on the
/// search path gave, if it gave one.
pub fn type_message(name: &str, found: Option<String>) -> (m: Option<Message>)
    ensures
        note_of(m) == type_note(
            name@,
            match found {
                Some(p) => Some(p@),
                None => None,
            },
        ),
{
    if name.is_empty() {
        return None;
    }
    let mut text = name.to_owned();
    if is_builtin(name) {
        text.append(" is a shell builtin");
        text.push('\n');
        Some(Message { to: Fd::Stdout, text })
    } else {
        match found {
            Some(path) => {
                text.append(" is ");
                text.append(path.as_str());
                text.push('\n');
                Some(Message { to: Fd::Stdout, text })
            },
            None => {
                text.append(": not found");
                text.push('\n');
                Some(Message { to: Fd::Stderr, text })
            },
        }
    }
}

/// What is said of a command that is neither a built-in nor on the search
/// path.
pub open spec fn not_found_note(name: Seq<char>) -> Note {
    Note { to: Fd::Stderr, text: line(name + ": command not found"@) }
}

/// The exit status of a stage whose command was not found.
pub const NOT_FOUND_STATUS: i32 = 127;

/// The complaint about the unknown command `name`.
pub fn not_found_message(name: &str) -> (m: Message)
    ensures
        m@ == not_found_note(name@),
{
    let mut text = name.to_owned();
    text.append(": command not found");
    text.push('\n');
    Message { to: Fd::Stderr, text }
}

/// The directory that `cd` goes to: the first argument; the home directory
/// if there is no argument, or an empty one, or `~`; and `/` where the home
/// directory is not known.
pub open spec fn cd_destination(args: Seq<Seq<char>>, home: Option<Seq<char>>) -> Seq<char> {
    if args.len() == 0 || args[0].len() == 0 || args[0] == "~"@ {
        match home {
            Some(dir) => dir,
            None => "/"@,
        }
    } else {
        args[0]
    }
}

/// The directory that `cd` with these arguments goes to. `home` is the home
/// directory, if the environment names one.
pub fn cd_target(args: &Vec<String>, home: Option<String>) -> (dir: String)
    ensures
        dir@ == cd_destination(
            views(args@),
            match home {
                Some(h) => Some(h@),
                None => None,
            },
        ),
{
    if args.len() > 0 {
        let first = to_chars(args[0].as_str());
        if first.len() > 0 && !spells(&first, "~") {
            return copy_string(&args[0]);
        }
    }
    match home {
        Some(dir) => dir,
        None => "/".to_owned(),
    }
}

/// Why a change of directory failed.
#[derive(Clone, Copy, PartialEq, Eq, Debug, Structural)]
pub enum CdFailure {
    NotFound,
    PermissionDenied,
    NotADirectory,
    Other,
}

/// The words for a failure.
pub open spec fn cd_reason(failure: CdFailure) -> Seq<char> {
    match failure {
        CdFailure::NotFound => "No such file or directory"@,
        CdFailure::PermissionDenied => "Permission denied"@,
        CdFailure::NotADirectory => "Not a directory"@,
        CdFailure::Other => "Unknown error"@,
    }
}

/// What `cd` says when it could not go to `dir`.
pub open spec fn cd_note(dir: Seq<char>, failure: CdFailure) -> Note {
    Note { to: Fd::Stderr, text: line("cd: "@ + dir + ": "@ + cd_reason(failure)) }
}

/// The complaint of `cd` about the directory `dir`.
pub fn cd_error(dir: &str, failure: CdFailure) -> (m: Message)
    ensures
        m@ == cd_note(dir@, failure),
{
    let mut text = "cd: ".to_owned();
    text.append(dir);
    text.append(": ");
    match failure {
        CdFailure::NotFound => text.append("No such file or directory"),
        CdFailure::PermissionDenied => text.append("Permission denied"),
        CdFailure::NotADirectory => text.append("Not a directory"),
        CdFailure::Other => text.append("Unknown error"),
    }
    text.push('\n');
    Message { to: Fd::Stderr, text }
}

/// One line of the history display: four spaces, the index, two spaces and
/// the entry.
pub open spec fn history_line(index: nat, entry: Seq<char>) -> Seq<char> {
    line("    "@ + decimal(index) + "  "@ + entry)
}

/// The index, from zero, of the first entry that is shown: with a limit the
/// last `limit` entries are shown, without one all of them.
pub open spec fn first_shown(len: nat, limit: Option<usize>) -> nat {
    match limit {
        Some(n) => if n >= len {
            0
        } else {
            (len - n) as nat
        },
        None => 0,
    }
}

/// The display of the entries `from..to`, each under its index, which counts
/// from one.
pub open spec fn listing(entries: Seq<Seq<char>>, from: int, to: int) -> Seq<char>
    decreases to - from,
{
    if to <= from {
        Seq::empty()
    } else {
        listing(entries, from, to - 1) + history_line(to as nat, entries[to - 1])
    }
}

/// The output of `history`: the last `limit` entries, or all of them.
pub fn history_message(history: &Vec<String>, limit: Option<usize>) -> (m: Message)
    ensures
        m@ == (Note {
            to: Fd::Stdout,
            text: listing(
                views(history@),
                first_shown(history.len() as nat, limit) as int,
                history.len() as int,
            ),
        }),
{
    let len: usize = history.len();
    let first: usize = match limit {
        Some(n) => if n >= len {
            0
        } else {
            len - n
        },
        None => 0,
    };
    let mut text = String::new();
    let mut i: usize = first;
    let ghost entries = views(history@);
    while i < len
        invariant
            first <= i <= len,
            len == history.len(),
            entries == views(history@),
            text@ == listing(entries, first as int, i as int),
        decreases len - i,
    {
        let ghost before = text@;
        text.append("    ");
        push_decimal(&mut text, i + 1);
        text.append("  ");
        text.append(history[i].as_str());
        text.push('\n');
        assert(text@ =~= before + history_line((i + 1) as nat, entries[i as int]));
        i += 1;
    }
    Message { to: Fd::Stdout, text }
}

/// What is said when a history file could not be read or written.
pub open spec fn history_note(path: Seq<char>, reason: Seq<char>) -> Note {
    Note { to: Fd::Stderr, text: line("history: "@ + path + ": "@ + reason) }
}

/// The complaint of `history` about the file `path`.
pub fn history_error(path: &str, reason: &str) -> (m: Message)
    ensures
        m@ == history_note(path@, reason@),
{
    let mut text = "history: ".to_owned();
    text.append(path);
    text.append(": ");
    text.append(reason);
    text.push('\n');
    Message { to: Fd::Stderr, text }
}

/// The entries `from..to` as a history file holds them: one entry per line.
pub open spec fn file_text(entries: Seq<Seq<char>>, from: int, to: int) -> Seq<char>
    decreases to - from,
{
    if to <= from {
        Seq::empty()
    } else {
        file_text(entries, from, to - 1) + line(entries[to - 1])
    }
}

/// The index of the first entry that was not written yet, when `written`
/// entries were: no entry is written twice, and a count beyond the end
/// leaves nothing to write.
pub open spec fn first_pending(len: nat, written: usize) -> nat {
    if written <= len {
        written as nat
    } else {
        len
    }
}

/// The text that `history -w` writes, with `written` zero, and that
/// `history -a` appends, with `written` the number of entries that earlier
/// writes covered: the entries after those, one per line.
pub fn history_file_text(history: &Vec<String>, written: usize) -> (text: String)
    ensures
        text@ == file_text(
            views(history@),
            first_pending(history.len() as nat, written) as int,
            history.len() as int,
        ),
{
    let len: usize = history.len();
    let first: usize = if written <= len {
        written
    } else {
        len
    };
    let mut text = String::new();
    let mut i: usize = first;
    let ghost entries = views(history@);
    while i < len
        invariant
            first <= i <= len,
            len == history.len(),
            entries == views(history@),
            text@ == file_text(entries, first as int, i as int),
        decreases len - i,
    {
        let ghost before = text@;
        text.append(history[i].as_str());
        text.push('\n');
        assert(text@ =~= before + line(entries[i as int]));
        i += 1;
    }
    text
}

/// The lines closed within `s`, trimmed and without the empty ones, and the
/// line that its end is in.
pub open spec fn lines_run(s: Seq<char>) -> (Seq<Seq<char>>, Seq<char>)
    decreases s.len(),
{
    if s.len() == 0 {
        (Seq::empty(), Seq::empty())
    } else {
        let (done, current) = lines_run(s.drop_last());
        if s.last() == '\n' {
            (keep_trimmed(done, current), Seq::empty())
        } else {
            (done, current.push(s.last()))
        }
    }
}

/// The entries that a history file holds: its lines, trimmed, without the
/// blank ones. The last line need not end in a line feed.
pub open spec fn file_entries(content: Seq<char>) -> Seq<Seq<char>> {
    keep_trimmed(lines_run(content).0, lines_run(content).1)
}

/// Reads the entries of a history file from its content.
pub fn history_entries(content: &str) -> (entries: Vec<String>)
    ensures
        views(entries@) == file_entries(content@),
{
    let chars = to_chars(content);
    let mut entries: Vec<String> = Vec::new();
    let mut first: usize = 0;
    let mut i: usize = 0;
    assert(views(entries@) =~= Seq::<Seq<char>>::empty());
    assert(chars@.take(0) =~= Seq::<char>::empty());
    assert(chars@.subrange(0, 0) =~= Seq::<char>::empty());
    while i < chars.len()
        invariant
            first <= i <= chars.len(),
            lines_run(chars@.take(i as int)) == (
                views(entries@),
                chars@.subrange(first as int, i as int),
            ),
        decreases chars.len() - i,
    {
        let c = chars[i];
        proof {
            assert(chars@.take(i + 1).drop_last() =~= chars@.take(i as int));
            assert(chars@.take(i + 1).last() == c);
        }
        if c == '\n' {
            push_trimmed(&chars, first, i, &mut entries);
            first = i + 1;
            assert(chars@.subrange(first as int, first as int) =~= Seq::<char>::empty());
        } else {
            assert(chars@.subrange(first as int, i as int).push(c) =~= chars@.subrange(
                first as int,
                i + 1,
            ));
        }
        i += 1;
    }
    assert(chars@.take(i as int) =~= chars@);
    push_trimmed(&chars, first, i, &mut entries);
    entries
}

} // verus!
