//! The lexer: one pass over a stage, left to right, that cuts it into tokens
//! under the quoting rules of the shell.
//!
//! The model is a small machine. Its state is the list of finished tokens,
//! the token being built and a mode; `step` consumes one character, `run` a
//! whole text, and `finish` closes whatever is still open at the end.

use crate::quote::{after, after_all, Mode};
use crate::text::{flush, lemma_views_push, to_chars, views};
use vstd::prelude::*;

verus! {

/// The state of the lexer between two characters.
pub struct LexState {
    /// The tokens finished so far.
    pub done: Seq<Seq<char>>,
    /// The token being built.
    pub word: Seq<char>,
    pub mode: Mode,
}

/// The state before the first character.
pub open spec fn start() -> LexState {
    LexState { done: Seq::empty(), word: Seq::empty(), mode: Mode::Plain }
}

/// The state after one more character.
pub open spec fn step(st: LexState, c: char) -> LexState {
    match st.mode {
        Mode::Plain => {
            if c == '\\' {
                LexState { mode: Mode::Escape, ..st }
            } else if c == '\'' {
                LexState { mode: Mode::Single, ..st }
            } else if c == '"' {
                LexState { mode: Mode::Double, ..st }
            } else if c == ' ' {
                LexState { done: flush(st.done, st.word), word: Seq::empty(), mode: Mode::Plain }
            } else {
                LexState { word: st.word.push(c), ..st }
            }
        },
        Mode::Escape => LexState { word: st.word.push(c), mode: Mode::Plain, ..st },
        Mode::Single => {
            if c == '\'' {
                LexState { mode: Mode::Plain, ..st }
            } else {
                LexState { word: st.word.push(c), ..st }
            }
        },
        Mode::Double => {
            if c == '\\' {
                LexState { mode: Mode::DoubleEscape, ..st }
            } else if c == '"' {
                LexState { mode: Mode::Plain, ..st }
            } else {
                LexState { word: st.word.push(c), ..st }
            }
        },
        Mode::DoubleEscape => {
            if c == '"' || c == '\\' {
                LexState { word: st.word.push(c), mode: Mode::Double, ..st }
            } else {
                LexState { word: st.word.push('\\').push(c), mode: Mode::Double, ..st }
            }
        },
    }
}

/// The lexer moves between quotes and escapes as `after` says.
pub proof fn lemma_step_mode(st: LexState, c: char)
    ensures
        step(st, c).mode == after(st.mode, c),
{
}

/// The state after the characters of `s`, starting from `st`.
pub open spec fn run(st: LexState, s: Seq<char>) -> LexState
    decreases s.len(),
{
    if s.len() == 0 {
        st
    } else {
        step(run(st, s.drop_last()), s.last())
    }
}

/// The lexer is in and out of quotes as the shared tracking says, over a
/// whole text.
pub proof fn lemma_lexer_tracks_quotes(st: LexState, s: Seq<char>)
    ensures
        run(st, s).mode == after_all(st.mode, s),
    decreases s.len(),
{
    if s.len() > 0 {
        lemma_lexer_tracks_quotes(st, s.drop_last());
        lemma_step_mode(run(st, s.drop_last()), s.last());
    }
}

/// The tokens at the end of the input: an open quote closes, a backslash
/// that ends the input inside double quotes stands for itself, one that ends
/// it outside quotes is dropped, and the token being built is emitted.
pub open spec fn finish(st: LexState) -> Seq<Seq<char>> {
    if st.mode == Mode::DoubleEscape {
        st.done.push(st.word.push('\\'))
    } else {
        flush(st.done, st.word)
    }
}

/// The tokens of `s`.
pub open spec fn tokens_of(s: Seq<char>) -> Seq<Seq<char>> {
    finish(run(start(), s))
}

/// `n` spaces.
pub open spec fn spaces(n: nat) -> Seq<char> {
    Seq::new(n, |i: int| ' ')
}

/// Running over a text in two parts is running over the whole.
pub proof fn lemma_run_concat(st: LexState, a: Seq<char>, b: Seq<char>)
    ensures
        run(st, a + b) == run(run(st, a), b),
    decreases b.len(),
{
    if b.len() == 0 {
        assert(a + b =~= a);
    } else {
        lemma_run_concat(st, a, b.drop_last());
        assert((a + b).drop_last() =~= a + b.drop_last());
        assert((a + b).last() == b.last());
    }
}

/// Running over one character is one step.
pub proof fn lemma_run_one(st: LexState, c: char)
    ensures
        run(st, seq![c]) == step(st, c),
{
    assert(seq![c].drop_last() =~= Seq::<char>::empty());
    assert(run(st, seq![c].drop_last()) == st);
}

/// Inside single quotes every character but the single quote is taken as it
/// is.
pub proof fn lemma_run_inside_single(st: LexState, s: Seq<char>)
    requires
        st.mode == Mode::Single,
        forall|i: int| 0 <= i < s.len() ==> s[i] != '\'',
    ensures
        run(st, s) == (LexState { word: st.word + s, ..st }),
    decreases s.len(),
{
    if s.len() == 0 {
        assert(st.word + s =~= st.word);
    } else {
        lemma_run_inside_single(st, s.drop_last());
        assert((st.word + s.drop_last()).push(s.last()) =~= st.word + s);
    }
}

/// Quoting round trip: a nonempty text without single quotes, put between
/// single quotes, lexes to exactly one token, which is the text itself.
pub proof fn lemma_single_quoted_is_literal(s: Seq<char>)
    requires
        s.len() > 0,
        forall|i: int| 0 <= i < s.len() ==> s[i] != '\'',
    ensures
        tokens_of(seq!['\''] + s + seq!['\'']) == seq![s],
{
    let open = seq!['\''];
    lemma_run_concat(start(), open + s, open);
    lemma_run_concat(start(), open, s);
    lemma_run_one(start(), '\'');
    let inside = step(start(), '\'');
    lemma_run_inside_single(inside, s);
    let filled = run(inside, s);
    lemma_run_one(filled, '\'');
    assert(Seq::<char>::empty() + s =~= s);
    assert(Seq::<Seq<char>>::empty().push(s) =~= seq![s]);
}

/// After one space outside quotes, further spaces change nothing.
pub proof fn lemma_run_spaces(st: LexState, n: nat)
    requires
        st.mode == Mode::Plain,
        n >= 1,
    ensures
        run(st, spaces(n)) == step(st, ' '),
    decreases n,
{
    if n == 1 {
        assert(spaces(1) =~= seq![' ']);
        lemma_run_one(st, ' ');
    } else {
        lemma_run_spaces(st, (n - 1) as nat);
        assert(spaces(n).drop_last() =~= spaces((n - 1) as nat));
    }
}

/// Whitespace idempotence: a run of one or more spaces outside quotes gives
/// the same tokens as a single space in its place.
pub proof fn lemma_space_run_is_one_space(before: Seq<char>, n: nat, rest: Seq<char>)
    requires
        run(start(), before).mode == Mode::Plain,
        n >= 1,
    ensures
        tokens_of(before + spaces(n) + rest) == tokens_of(before + spaces(1) + rest),
{
    let st = run(start(), before);
    lemma_run_concat(start(), before + spaces(n), rest);
    lemma_run_concat(start(), before, spaces(n));
    lemma_run_concat(start(), before + spaces(1), rest);
    lemma_run_concat(start(), before, spaces(1));
    lemma_run_spaces(st, n);
    lemma_run_spaces(st, 1);
}

/// A run that starts between two tokens does not look at the tokens before
/// it: it adds its own tokens behind them.
pub proof fn lemma_run_after_tokens(before: Seq<Seq<char>>, s: Seq<char>)
    ensures
        run(LexState { done: before, ..start() }, s) == (LexState {
            done: before + run(start(), s).done,
            ..run(start(), s)
        }),
    decreases s.len(),
{
    if s.len() == 0 {
        assert(before + Seq::<Seq<char>>::empty() =~= before);
    } else {
        lemma_run_after_tokens(before, s.drop_last());
        let alone = run(start(), s.drop_last());
        assert((before + alone.done).push(alone.word) =~= before + alone.done.push(alone.word));
    }
}

/// A space outside quotes separates: the tokens of a text with such a space
/// are the tokens before the space followed by the tokens after it.
pub proof fn lemma_space_separates(a: Seq<char>, b: Seq<char>)
    requires
        run(start(), a).mode == Mode::Plain,
    ensures
        tokens_of(a + seq![' '] + b) == tokens_of(a) + tokens_of(b),
{
    let space = seq![' '];
    lemma_run_concat(start(), a + space, b);
    lemma_run_concat(start(), a, space);
    lemma_run_one(run(start(), a), ' ');
    let cut = step(run(start(), a), ' ');
    assert(cut == (LexState { done: tokens_of(a), ..start() }));
    lemma_run_after_tokens(tokens_of(a), b);
    let rest = run(start(), b);
    assert((tokens_of(a) + rest.done).push(rest.word) =~= tokens_of(a) + rest.done.push(rest.word));
    assert((tokens_of(a) + rest.done).push(rest.word.push('\\')) =~= tokens_of(a)
        + rest.done.push(rest.word.push('\\')));
}

/// Whether `s` is a word that needs no quoting: it has a character, and no
/// space, quote or backslash.
pub open spec fn is_plain_word(s: Seq<char>) -> bool {
    &&& s.len() > 0
    &&& forall|i: int|
        0 <= i < s.len() ==> s[i] != ' ' && s[i] != '\\' && s[i] != '\'' && s[i] != '"'
}

proof fn lemma_run_plain_word(st: LexState, s: Seq<char>)
    requires
        st.mode == Mode::Plain,
        forall|i: int|
            0 <= i < s.len() ==> s[i] != ' ' && s[i] != '\\' && s[i] != '\'' && s[i] != '"',
    ensures
        run(st, s) == (LexState { word: st.word + s, ..st }),
    decreases s.len(),
{
    if s.len() == 0 {
        assert(st.word + s =~= st.word);
    } else {
        lemma_run_plain_word(st, s.drop_last());
        assert((st.word + s.drop_last()).push(s.last()) =~= st.word + s);
    }
}

/// A word that needs no quoting is one token: itself. The lexer is outside
/// quotes behind it.
pub proof fn lemma_plain_word_is_token(s: Seq<char>)
    requires
        is_plain_word(s),
    ensures
        tokens_of(s) == seq![s],
        run(start(), s).mode == Mode::Plain,
{
    lemma_run_plain_word(start(), s);
    assert(Seq::<char>::empty() + s =~= s);
    assert(Seq::<Seq<char>>::empty().push(s) =~= seq![s]);
}

/// Whether every token of a list has at least one character.
pub open spec fn all_nonempty(tokens: Seq<Seq<char>>) -> bool {
    forall|i: int| 0 <= i < tokens.len() ==> (#[trigger] tokens[i]).len() > 0
}

proof fn lemma_run_keeps_nonempty(st: LexState, s: Seq<char>)
    requires
        all_nonempty(st.done),
    ensures
        all_nonempty(run(st, s).done),
    decreases s.len(),
{
    if s.len() > 0 {
        lemma_run_keeps_nonempty(st, s.drop_last());
    }
}

/// No token is empty.
pub proof fn lemma_tokens_nonempty(s: Seq<char>)
    ensures
        all_nonempty(tokens_of(s)),
{
    lemma_run_keeps_nonempty(start(), s);
}

/// Cuts the characters of a stage into tokens.
pub fn tokenize(chars: &Vec<char>) -> (tokens: Vec<String>)
    ensures
        views(tokens@) == tokens_of(chars@),
        all_nonempty(views(tokens@)),
{
    let mut done: Vec<String> = Vec::new();
    let mut word = String::new();
    let mut mode = Mode::Plain;
    let mut i: usize = 0;
    assert(views(done@) =~= Seq::<Seq<char>>::empty());
    assert(chars@.take(0) =~= Seq::<char>::empty());
    while i < chars.len()
        invariant
            i <= chars.len(),
            (LexState { done: views(done@), word: word@, mode }) == run(
                start(),
                chars@.take(i as int),
            ),
        decreases chars.len() - i,
    {
        let c = chars[i];
        proof {
            assert(chars@.take(i + 1).drop_last() =~= chars@.take(i as int));
            assert(chars@.take(i + 1).last() == c);
        }
        match mode {
            Mode::Plain => {
                if c == '\\' {
                    mode = Mode::Escape;
                } else if c == '\'' {
                    mode = Mode::Single;
                } else if c == '"' {
                    mode = Mode::Double;
                } else if c == ' ' {
                    if !word.as_str().is_empty() {
                        proof {
                            lemma_views_push(done@, word);
                        }
                        done.push(word);
                        word = String::new();
                    }
                    assert(word@ =~= Seq::<char>::empty());
                } else {
                    word.push(c);
                }
            },
            Mode::Escape => {
                word.push(c);
                mode = Mode::Plain;
            },
            Mode::Single => {
                if c == '\'' {
                    mode = Mode::Plain;
                } else {
                    word.push(c);
                }
            },
            Mode::Double => {
                if c == '\\' {
                    mode = Mode::DoubleEscape;
                } else if c == '"' {
                    mode = Mode::Plain;
                } else {
                    word.push(c);
                }
            },
            Mode::DoubleEscape => {
                if c == '"' || c == '\\' {
                    word.push(c);
                } else {
                    word.push('\\');
                    word.push(c);
                }
                mode = Mode::Double;
            },
        }
        i += 1;
    }
    assert(chars@.take(i as int) =~= chars@);
    match mode {
        Mode::DoubleEscape => {
            word.push('\\');
        },
        _ => {},
    }
    if !word.as_str().is_empty() {
        proof {
            lemma_views_push(done@, word);
        }
        done.push(word);
    }
    proof {
        lemma_tokens_nonempty(chars@);
    }
    done
}

/// Cuts a stage into tokens: spaces outside quotes separate them, single
/// quotes keep everything literal, double quotes keep everything but a
/// backslash before `"` or `\`, and a backslash outside quotes makes the next
/// character literal.
pub fn parse_args(input: &str) -> (tokens: Vec<String>)
    ensures
        views(tokens@) == tokens_of(input@),
        all_nonempty(views(tokens@)),
{
    let chars = to_chars(input);
    tokenize(&chars)
}

} // verus!
