//! The dispatcher: from the tokens of a stage to what the shell is to do, and
//! from a whole line to its command.
//!
//! A line goes through the pipeline splitter; each stage goes through the
//! redirection parser and the lexer. Stages without tokens are dropped. One
//! stage is dispatched by its first token: a built-in name first, then the
//! path cache, else it is unknown. Two or more stages make a pipeline.

use crate::lexer::{
    is_plain_word, lemma_plain_word_is_token, lemma_space_separates, parse_args, tokens_of,
};
use crate::quote::is_protected;
use crate::number::{count_of, parse_count};
use crate::pathcache::PathCache;
use crate::redirect::{
    fills_a_slot, lemma_protected_operators_redirect_nothing, parse_redirection, redirects_of, residual, slots, slots_of, Redirection, Slots,
};
use crate::splitter::{
    is_plain_stage, lemma_quoted_pipes_do_not_split, lemma_stage_count, parse_pipeline, piped, stages_of, trimmed_all,
};
use crate::text::{
    copy_string, is_blank, is_space, lemma_trim_empty_iff_blank, lemma_trim_end_concat,
    lemma_trim_end_shape, trim_end, skip_leading, skip_trailing, spells, split_words, to_chars, trim, views, words,
};
use vstd::prelude::*;
use vstd::string::*;

verus! {

/// One stage of a pipeline: the command name, its arguments and its
/// redirection set.
#[derive(Clone, Debug, PartialEq, Eq)]
pub struct Stage {
    pub name: String,
    pub args: Vec<String>,
    pub redirection: Option<Redirection>,
}

/// The model of a `Stage`.
pub struct StageModel {
    pub name: Seq<char>,
    pub args: Seq<Seq<char>>,
    pub slots: Slots,
}

impl View for Stage {
    type V = StageModel;

    open spec fn view(&self) -> StageModel {
        StageModel { name: self.name@, args: views(self.args@), slots: slots_of(self.redirection) }
    }
}

/// The models of a list of stages.
pub open spec fn stage_views(stages: Seq<Stage>) -> Seq<StageModel> {
    Seq::new(stages.len(), |i: int| stages[i]@)
}

/// What the shell is to do for a line.
#[derive(Clone, Debug, PartialEq, Eq)]
pub enum CommandAction {
    /// Leave the shell.
    Exit,
    /// Write the arguments.
    Echo(Vec<String>),
    /// Say what kind of command the first argument names.
    Type(Vec<String>),
    /// Write the working directory.
    Pwd,
    /// Hand the words of the line to the assistant.
    Ai(Vec<String>),
    /// Run the program at `path`, found in the path cache under `name`.
    External { name: String, path: String, args: Vec<String> },
    /// The command is neither a built-in nor in the path cache.
    Unknown(String),
    /// Change the working directory.
    Cd(Vec<String>),
    /// Run two or more stages, each reading what the one before it writes.
    Pipeline(Vec<Stage>),
    /// Show the history, or its last entries if a count is given.
    History(Option<usize>),
    /// Read history entries from a file.
    HistoryRead(String),
    /// Write the history to a file.
    HistoryWrite(String),
    /// Append the entries not yet written to a file.
    HistoryAppend(String),
    /// The line holds no command.
    Nothing,
}

/// The model of a `CommandAction`.
pub enum Action {
    Exit,
    Echo(Seq<Seq<char>>),
    Type(Seq<Seq<char>>),
    Pwd,
    Ai(Seq<Seq<char>>),
    External { name: Seq<char>, path: Seq<char>, args: Seq<Seq<char>> },
    Unknown(Seq<char>),
    Cd(Seq<Seq<char>>),
    Pipeline(Seq<StageModel>),
    History(Option<usize>),
    HistoryRead(Seq<char>),
    HistoryWrite(Seq<char>),
    HistoryAppend(Seq<char>),
    Nothing,
}

impl View for CommandAction {
    type V = Action;

    open spec fn view(&self) -> Action {
        match *self {
            CommandAction::Exit => Action::Exit,
            CommandAction::Echo(args) => Action::Echo(views(args@)),
            CommandAction::Type(args) => Action::Type(views(args@)),
            CommandAction::Pwd => Action::Pwd,
            CommandAction::Ai(prompt) => Action::Ai(views(prompt@)),
            CommandAction::External { name, path, args } => Action::External {
                name: name@,
                path: path@,
                args: views(args@),
            },
            CommandAction::Unknown(name) => Action::Unknown(name@),
            CommandAction::Cd(args) => Action::Cd(views(args@)),
            CommandAction::Pipeline(stages) => Action::Pipeline(stage_views(stages@)),
            CommandAction::History(limit) => Action::History(limit),
            CommandAction::HistoryRead(path) => Action::HistoryRead(path@),
            CommandAction::HistoryWrite(path) => Action::HistoryWrite(path@),
            CommandAction::HistoryAppend(path) => Action::HistoryAppend(path@),
            CommandAction::Nothing => Action::Nothing,
        }
    }
}

/// The names of the built-in commands.
pub open spec fn is_builtin_name(name: Seq<char>) -> bool {
    ||| name == "echo"@
    ||| name == "exit"@
    ||| name == "type"@
    ||| name == "pwd"@
    ||| name == "cd"@
    ||| name == "history"@
}

/// Whether `command` names a built-in.
pub fn is_builtin(command: &str) -> (b: bool)
    ensures
        b == is_builtin_name(command@),
{
    let name = to_chars(command);
    spells(&name, "echo") || spells(&name, "exit") || spells(&name, "type") || spells(&name, "pwd")
        || spells(&name, "cd") || spells(&name, "history")
}

/// The form of `history` that the arguments ask for: `-r`, `-w` and `-a`
/// take a path and are unknown without one; otherwise the first argument, if
/// it is a count, limits the display.
pub open spec fn history_form(args: Seq<Seq<char>>) -> Action {
    if args.len() > 0 && args[0] == "-r"@ {
        if args.len() > 1 {
            Action::HistoryRead(args[1])
        } else {
            Action::Unknown("history"@)
        }
    } else if args.len() > 0 && args[0] == "-w"@ {
        if args.len() > 1 {
            Action::HistoryWrite(args[1])
        } else {
            Action::Unknown("history"@)
        }
    } else if args.len() > 0 && args[0] == "-a"@ {
        if args.len() > 1 {
            Action::HistoryAppend(args[1])
        } else {
            Action::Unknown("history"@)
        }
    } else if args.len() > 0 {
        Action::History(count_of(args[0]))
    } else {
        Action::History(None)
    }
}

/// What a stage with this name and these arguments is to do: a built-in if
/// the name is one, else the program that the cache holds for the name, else
/// unknown.
pub open spec fn dispatched(
    name: Seq<char>,
    args: Seq<Seq<char>>,
    cache: Map<Seq<char>, Seq<char>>,
) -> Action {
    if name == "exit"@ {
        Action::Exit
    } else if name == "echo"@ {
        Action::Echo(args)
    } else if name == "pwd"@ {
        Action::Pwd
    } else if name == "type"@ {
        Action::Type(args)
    } else if name == "cd"@ {
        Action::Cd(args)
    } else if name == "history"@ {
        history_form(args)
    } else if cache.contains_key(name) {
        Action::External { name, path: cache[name], args }
    } else {
        Action::Unknown(name)
    }
}

/// Built-in shadowing: a built-in name is never dispatched to a program,
/// whatever the path cache holds.
pub proof fn lemma_builtin_shadows_cache(
    name: Seq<char>,
    args: Seq<Seq<char>>,
    cache: Map<Seq<char>, Seq<char>>,
)
    requires
        is_builtin_name(name),
    ensures
        !(dispatched(name, args, cache) is External),
{
}

/// Only a name that is no built-in reaches the cache, and then the cache
/// decides between a program and an unknown command.
pub proof fn lemma_other_names_go_by_cache(
    name: Seq<char>,
    args: Seq<Seq<char>>,
    cache: Map<Seq<char>, Seq<char>>,
)
    requires
        !is_builtin_name(name),
    ensures
        cache.contains_key(name) ==> dispatched(name, args, cache) == (Action::External {
            name,
            path: cache[name],
            args,
        }),
        !cache.contains_key(name) ==> dispatched(name, args, cache) == Action::Unknown(name),
{
}

/// The stage that a text holds: its first token is the name and the rest
/// are the arguments, after its redirections were taken out. A text without
/// tokens holds no stage.
pub open spec fn stage_of(text: Seq<char>) -> Option<StageModel> {
    let tokens = tokens_of(residual(text));
    if tokens.len() == 0 {
        None
    } else {
        Some(
            StageModel { name: tokens[0], args: tokens.skip(1), slots: slots(redirects_of(text)) },
        )
    }
}

/// The stages that a list of texts holds, in order.
pub open spec fn kept_stages(texts: Seq<Seq<char>>) -> Seq<StageModel>
    decreases texts.len(),
{
    if texts.len() == 0 {
        Seq::empty()
    } else {
        match stage_of(texts.last()) {
            Some(stage) => kept_stages(texts.drop_last()).push(stage),
            None => kept_stages(texts.drop_last()),
        }
    }
}

/// Two empty slots.
pub open spec fn no_slots() -> Slots {
    Slots { out: None, err: None }
}

/// The command of a line, and the redirection set that goes with it. A line
/// that starts with `!` goes to the assistant, word by word. Otherwise the
/// line's stages decide: none is nothing to do, one is dispatched and keeps
/// its redirections, more are a pipeline, where each stage keeps its own.
pub open spec fn command_of(line: Seq<char>, cache: Map<Seq<char>, Seq<char>>) -> (Action, Slots) {
    let trimmed = trim(line);
    if trimmed.len() > 0 && trimmed[0] == '!' {
        (Action::Ai(words(trimmed.skip(1))), no_slots())
    } else {
        let stages = kept_stages(stages_of(line));
        if stages.len() == 0 {
            (Action::Nothing, no_slots())
        } else if stages.len() == 1 {
            (dispatched(stages[0].name, stages[0].args, cache), stages[0].slots)
        } else {
            (Action::Pipeline(stages), no_slots())
        }
    }
}

/// Texts that each hold a stage give as many stages as there are texts.
pub proof fn lemma_every_stage_kept(texts: Seq<Seq<char>>)
    requires
        forall|i: int| 0 <= i < texts.len() ==> stage_of(#[trigger] texts[i]) is Some,
    ensures
        kept_stages(texts).len() == texts.len(),
        forall|i: int|
            0 <= i < texts.len() ==> Some(#[trigger] kept_stages(texts)[i]) == stage_of(texts[i]),
    decreases texts.len(),
{
    if texts.len() > 0 {
        let front = texts.drop_last();
        assert forall|i: int| 0 <= i < front.len() implies stage_of(#[trigger] front[i]) is Some by {
            assert(front[i] == texts[i]);
        }
        lemma_every_stage_kept(front);
        assert forall|i: int| 0 <= i < texts.len() implies Some(#[trigger] kept_stages(texts)[i])
            == stage_of(texts[i]) by {
            if i < front.len() {
                assert(front[i] == texts[i]);
            }
        }
    }
}

/// A line of `n` commands, two or more, is a pipeline of `n` stages: where
/// the texts between the `|` of a line can each stand as a stage and each
/// hold a command, and the line does not start with `!`, the command of the
/// line is a pipeline with one stage per text, in order.
pub proof fn lemma_line_of_stages_is_pipeline(
    segments: Seq<Seq<char>>,
    cache: Map<Seq<char>, Seq<char>>,
)
    requires
        segments.len() >= 2,
        forall|i: int| 0 <= i < segments.len() ==> is_plain_stage(#[trigger] segments[i]),
        forall|i: int| 0 <= i < segments.len() ==> stage_of(trim(#[trigger] segments[i])) is Some,
        trim(piped(segments)).len() > 0 ==> trim(piped(segments))[0] != '!',
    ensures
        command_of(piped(segments), cache).0 is Pipeline,
        command_of(piped(segments), cache).0->Pipeline_0.len() == segments.len(),
        forall|i: int|
            0 <= i < segments.len() ==> Some(
                #[trigger] command_of(piped(segments), cache).0->Pipeline_0[i],
            ) == stage_of(trim(segments[i])),
{
    lemma_stage_count(segments);
    let texts = trimmed_all(segments);
    assert(stages_of(piped(segments)) == texts);
    assert forall|i: int| 0 <= i < texts.len() implies stage_of(#[trigger] texts[i]) is Some by {
        assert(texts[i] == trim(segments[i]));
    }
    lemma_every_stage_kept(texts);
}

/// Whether a word can open a line as the name of a command: it needs no
/// quoting, does not begin or end with whitespace, and does not begin with
/// `!`.
pub open spec fn is_command_word(name: Seq<char>) -> bool {
    &&& is_plain_word(name)
    &&& !is_space(name[0])
    &&& !is_space(name.last())
    &&& name[0] != '!'
}

/// The arguments that the text behind a command name holds.
pub open spec fn arguments_of(rest: Seq<char>) -> Seq<Seq<char>> {
    tokens_of(trim_end(rest))
}

proof fn lemma_command_line_tokens(name: Seq<char>, rest: Seq<char>)
    requires
        is_command_word(name),
    ensures
        tokens_of(trim_end(name + seq![' '] + rest)) == seq![name] + arguments_of(rest),
        trim(name + seq![' '] + rest).len() > 0,
        trim(name + seq![' '] + rest)[0] == name[0],
{
    let space = seq![' '];
    let line = name + space + rest;
    lemma_plain_word_is_token(name);
    lemma_trim_end_concat(name + space, rest);
    lemma_trim_empty_iff_blank(rest);
    if is_blank(rest) {
        lemma_trim_end_concat(name, space);
        assert(is_blank(space));
        assert(trim_end(name) == name);
        assert(arguments_of(rest) =~= Seq::<Seq<char>>::empty());
        assert(seq![name] + Seq::<Seq<char>>::empty() =~= seq![name]);
    } else {
        lemma_space_separates(name, trim_end(rest));
    }
    assert(line[0] == name[0]);
    lemma_trim_end_shape(line);
    assert(!is_blank(line)) by {
        if is_blank(line) {
            assert(is_space(line[0]));
        }
    }
    lemma_trim_empty_iff_blank(line);
}

/// A line that is a command name and a rest dispatches the name: where the
/// name needs no quoting and every `|` and `>` of the line is protected by
/// quotes or a backslash, the command of the line is what the name and the
/// tokens of the rest dispatch to, and nothing is redirected.
pub proof fn lemma_command_line_is_dispatched(
    name: Seq<char>,
    rest: Seq<char>,
    cache: Map<Seq<char>, Seq<char>>,
)
    requires
        is_command_word(name),
        is_protected(name + seq![' '] + rest, '|'),
        is_protected(name + seq![' '] + rest, '>'),
    ensures
        command_of(name + seq![' '] + rest, cache) == (
            dispatched(name, arguments_of(rest), cache),
            no_slots(),
        ),
{
    let line = name + seq![' '] + rest;
    lemma_quoted_pipes_do_not_split(line);
    lemma_protected_operators_redirect_nothing(line);
    lemma_command_line_tokens(name, rest);
    let tokens = tokens_of(residual(line));
    assert(tokens[0] == name);
    assert(tokens.skip(1) =~= arguments_of(rest));
    let texts = seq![line];
    assert(texts.drop_last() =~= Seq::<Seq<char>>::empty());
    assert(kept_stages(texts.drop_last()) =~= Seq::<StageModel>::empty());
    assert(kept_stages(texts) =~= seq![stage_of(line)->0]);
}

/// A command name alone on a line dispatches with no arguments.
pub proof fn lemma_command_alone_is_dispatched(name: Seq<char>, cache: Map<Seq<char>, Seq<char>>)
    requires
        is_command_word(name),
        is_protected(name, '|'),
        is_protected(name, '>'),
    ensures
        command_of(name, cache) == (
            dispatched(name, Seq::<Seq<char>>::empty(), cache),
            no_slots(),
        ),
{
    lemma_quoted_pipes_do_not_split(name);
    lemma_protected_operators_redirect_nothing(name);
    lemma_plain_word_is_token(name);
    assert(trim_end(name) == name);
    lemma_trim_end_shape(name);
    let tokens = tokens_of(residual(name));
    assert(tokens.skip(1) =~= Seq::<Seq<char>>::empty());
    let texts = seq![name];
    assert(texts.drop_last() =~= Seq::<Seq<char>>::empty());
    assert(kept_stages(texts.drop_last()) =~= Seq::<StageModel>::empty());
    assert(kept_stages(texts) =~= seq![stage_of(name)->0]);
}

/// The names of the built-ins can open a line, and hold no `|` and no `>`.
pub proof fn lemma_builtin_names_are_command_words(name: Seq<char>)
    requires
        is_builtin_name(name),
    ensures
        is_command_word(name),
        forall|i: int| 0 <= i < name.len() ==> name[i] != '|' && name[i] != '>',
{
    reveal_strlit("echo");
    reveal_strlit("exit");
    reveal_strlit("type");
    reveal_strlit("pwd");
    reveal_strlit("cd");
    reveal_strlit("history");
}

/// Built-in shadowing over a whole line: a line that is the name of a
/// built-in, alone or followed by a space and a rest whose every `|` and `>`
/// is protected, runs the built-in and never a program of that name,
/// whatever the path cache holds.
pub proof fn lemma_builtin_line_runs_the_builtin(
    name: Seq<char>,
    rest: Seq<char>,
    cache: Map<Seq<char>, Seq<char>>,
)
    requires
        is_builtin_name(name),
        is_protected(name + seq![' '] + rest, '|'),
        is_protected(name + seq![' '] + rest, '>'),
    ensures
        command_of(name + seq![' '] + rest, cache).0 == dispatched(
            name,
            arguments_of(rest),
            cache,
        ),
        !(command_of(name + seq![' '] + rest, cache).0 is External),
        command_of(name, cache).0 == dispatched(name, Seq::<Seq<char>>::empty(), cache),
        !(command_of(name, cache).0 is External),
{
    lemma_builtin_names_are_command_words(name);
    lemma_command_line_is_dispatched(name, rest, cache);
    assert(is_protected(name, '|'));
    assert(is_protected(name, '>'));
    lemma_command_alone_is_dispatched(name, cache);
}

/// Built-in shadowing for every line: whatever the line and whatever the
/// path cache, a command that runs a program does not bear the name of a
/// built-in; it bears a name of the cache and runs the path cached for it.
pub proof fn lemma_no_line_runs_a_builtin_as_program(
    line: Seq<char>,
    cache: Map<Seq<char>, Seq<char>>,
)
    ensures
        command_of(line, cache).0 matches Action::External { name, path, .. } ==> {
            &&& !is_builtin_name(name)
            &&& cache.contains_key(name)
            &&& path == cache[name]
        },
{
}

/// The path argument of `history -r`, `-w` or `-a`, if there is one.
fn history_path(args: &Vec<String>) -> (path: Option<String>)
    ensures
        path is Some <==> args.len() > 1,
        path matches Some(p) ==> p@ == args@[1]@,
{
    if args.len() > 1 {
        Some(copy_string(&args[1]))
    } else {
        None
    }
}

/// Chooses the form of `history` that the arguments ask for.
pub fn dispatch_history(args: &Vec<String>) -> (action: CommandAction)
    ensures
        action@ == history_form(views(args@)),
{
    if args.len() == 0 {
        return CommandAction::History(None);
    }
    let first = to_chars(args[0].as_str());
    if spells(&first, "-r") {
        match history_path(args) {
            Some(path) => CommandAction::HistoryRead(path),
            None => CommandAction::Unknown("history".to_owned()),
        }
    } else if spells(&first, "-w") {
        match history_path(args) {
            Some(path) => CommandAction::HistoryWrite(path),
            None => CommandAction::Unknown("history".to_owned()),
        }
    } else if spells(&first, "-a") {
        match history_path(args) {
            Some(path) => CommandAction::HistoryAppend(path),
            None => CommandAction::Unknown("history".to_owned()),
        }
    } else {
        CommandAction::History(parse_count(args[0].as_str()))
    }
}

/// Dispatches a stage by its name: a built-in if the name is one, else the
/// program that the cache holds for the name, else unknown.
pub fn dispatch(name: String, args: Vec<String>, cache: &PathCache) -> (action: CommandAction)
    ensures
        action@ == dispatched(name@, views(args@), cache@),
{
    let word = to_chars(name.as_str());
    if spells(&word, "exit") {
        CommandAction::Exit
    } else if spells(&word, "echo") {
        CommandAction::Echo(args)
    } else if spells(&word, "pwd") {
        CommandAction::Pwd
    } else if spells(&word, "type") {
        CommandAction::Type(args)
    } else if spells(&word, "cd") {
        CommandAction::Cd(args)
    } else if spells(&word, "history") {
        dispatch_history(&args)
    } else {
        match cache.resolve(name.as_str()) {
            Some(path) => CommandAction::External { name, path, args },
            None => CommandAction::Unknown(name),
        }
    }
}

/// Reads one stage from its text. The result is `None` when the text holds
/// no token.
pub fn parse_stage(text: &str) -> (stage: Option<Stage>)
    ensures
        match stage {
            Some(s) => stage_of(text@) == Some(s@) && fills_a_slot(s.redirection),
            None => stage_of(text@) is None,
        },
{
    let (command, redirection) = parse_redirection(text);
    let mut tokens = parse_args(command.as_str());
    if tokens.len() == 0 {
        return None;
    }
    let ghost all = views(tokens@);
    let name = tokens.remove(0);
    assert(views(tokens@) =~= all.skip(1));
    Some(Stage { name, args: tokens, redirection })
}

/// Parses a line into the command it asks for and the redirection set that
/// goes with the command.
pub fn parse_command(input: &str, cache: &PathCache) -> (r: (CommandAction, Option<Redirection>))
    ensures
        (r.0@, slots_of(r.1)) == command_of(input@, cache@),
        fills_a_slot(r.1),
        r.0 matches CommandAction::Pipeline(stages) ==> forall|i: int|
            0 <= i < stages.len() ==> fills_a_slot(#[trigger] stages[i].redirection),
{
    let chars = to_chars(input);
    let from = skip_leading(&chars, 0, chars.len());
    let to = skip_trailing(&chars, from, chars.len());
    assert(chars@.subrange(0, chars.len() as int) =~= chars@);
    if from < to && chars[from] == '!' {
        let prompt = split_words(&chars, from + 1, to);
        assert(chars@.subrange(from + 1, to as int) =~= trim(input@).skip(1));
        return (CommandAction::Ai(prompt), None);
    }
    let texts = parse_pipeline(input);
    let mut stages: Vec<Stage> = Vec::new();
    let mut i: usize = 0;
    let ghost all = views(texts@);
    assert(stage_views(stages@) =~= Seq::<StageModel>::empty());
    assert(all.take(0) =~= Seq::<Seq<char>>::empty());
    while i < texts.len()
        invariant
            i <= texts.len(),
            all == views(texts@),
            stage_views(stages@) == kept_stages(all.take(i as int)),
            forall|j: int| 0 <= j < stages.len() ==> fills_a_slot(#[trigger] stages[j].redirection),
        decreases texts.len() - i,
    {
        proof {
            assert(all.take(i + 1).drop_last() =~= all.take(i as int));
            assert(all.take(i + 1).last() == texts@[i as int]@);
        }
        match parse_stage(texts[i].as_str()) {
            Some(stage) => {
                assert(stage_views(stages@.push(stage)) =~= stage_views(stages@).push(stage@));
                stages.push(stage);
            },
            None => {},
        }
        i += 1;
    }
    assert(all.take(i as int) =~= all);
    if stages.len() == 0 {
        (CommandAction::Nothing, None)
    } else if stages.len() == 1 {
        let stage = stages.remove(0);
        let Stage { name, args, redirection } = stage;
        (dispatch(name, args, cache), redirection)
    } else {
        (CommandAction::Pipeline(stages), None)
    }
}

} // verus!
