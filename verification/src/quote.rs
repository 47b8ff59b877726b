//! Quote and escape tracking, shared by the lexer, the pipeline splitter and
//! the redirection parser: all three read a line through the same five
//! modes, so they agree on which characters stand outside quotes.

use vstd::prelude::*;

verus! {

/// Where a scan stands with respect to quotes and escapes.
#[derive(Clone, Copy, PartialEq, Eq, Debug, Structural)]
pub enum Mode {
    /// Outside quotes.
    Plain,
    /// Outside quotes, right after a backslash.
    Escape,
    /// Inside single quotes.
    Single,
    /// Inside double quotes.
    Double,
    /// Inside double quotes, right after a backslash.
    DoubleEscape,
}

/// The mode after the character `c` was read in mode `m`.
pub open spec fn after(m: Mode, c: char) -> Mode {
    match m {
        Mode::Plain => {
            if c == '\\' {
                Mode::Escape
            } else if c == '\'' {
                Mode::Single
            } else if c == '"' {
                Mode::Double
            } else {
                Mode::Plain
            }
        },
        Mode::Escape => Mode::Plain,
        Mode::Single => {
            if c == '\'' {
                Mode::Plain
            } else {
                Mode::Single
            }
        },
        Mode::Double => {
            if c == '\\' {
                Mode::DoubleEscape
            } else if c == '"' {
                Mode::Plain
            } else {
                Mode::Double
            }
        },
        Mode::DoubleEscape => Mode::Double,
    }
}

/// The mode after the characters of `s`, read from mode `m`.
pub open spec fn after_all(m: Mode, s: Seq<char>) -> Mode
    decreases s.len(),
{
    if s.len() == 0 {
        m
    } else {
        after(after_all(m, s.drop_last()), s.last())
    }
}

/// Reading a text is reading its first character and then the rest.
pub proof fn lemma_after_all_first(m: Mode, s: Seq<char>)
    requires
        s.len() > 0,
    ensures
        after_all(m, s) == after_all(after(m, s[0]), s.drop_first()),
    decreases s.len(),
{
    if s.len() == 1 {
        assert(s.drop_last() =~= Seq::<char>::empty());
        assert(s.drop_first() =~= Seq::<char>::empty());
    } else {
        lemma_after_all_first(m, s.drop_last());
        assert(s.drop_last().drop_first() =~= s.drop_first().drop_last());
    }
}

/// Whether every `c` of `s` is protected: it stands inside quotes or behind
/// a backslash, for a reading of `s` that starts outside quotes.
pub open spec fn is_protected(s: Seq<char>, c: char) -> bool {
    forall|i: int|
        0 <= i < s.len() && s[i] == c ==> after_all(Mode::Plain, #[trigger] s.take(i))
            != Mode::Plain
}

/// Reading one character more is one more step.
pub proof fn lemma_after_all_next(m: Mode, s: Seq<char>, i: int)
    requires
        0 <= i < s.len(),
    ensures
        after_all(m, s.take(i + 1)) == after(after_all(m, s.take(i)), s[i]),
{
    assert(s.take(i + 1).drop_last() =~= s.take(i));
}

/// Whether `s` holds no quote and no backslash.
pub open spec fn is_bare(s: Seq<char>) -> bool {
    forall|i: int| 0 <= i < s.len() ==> s[i] != '\\' && s[i] != '\'' && s[i] != '"'
}

/// The mode after `c`, read in mode `m`.
pub fn advance(m: Mode, c: char) -> (next: Mode)
    ensures
        next == after(m, c),
{
    match m {
        Mode::Plain => {
            if c == '\\' {
                Mode::Escape
            } else if c == '\'' {
                Mode::Single
            } else if c == '"' {
                Mode::Double
            } else {
                Mode::Plain
            }
        },
        Mode::Escape => Mode::Plain,
        Mode::Single => {
            if c == '\'' {
                Mode::Plain
            } else {
                Mode::Single
            }
        },
        Mode::Double => {
            if c == '\\' {
                Mode::DoubleEscape
            } else if c == '"' {
                Mode::Plain
            } else {
                Mode::Double
            }
        },
        Mode::DoubleEscape => Mode::Double,
    }
}

} // verus!
