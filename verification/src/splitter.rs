//! The pipeline splitter: cuts a line into stages at each `|` that stands
//! outside quotes and is not escaped. A line without such a `|` is one stage
//! and stays as it is; stages cut at a `|` are trimmed, and the blank ones
//! are dropped.

use crate::quote::{advance, after, after_all, is_bare, is_protected, Mode};
use crate::text::{
    from_chars, keep_trimmed, lemma_trim_is_idempotent, lemma_views_push, push_trimmed, to_chars,
    trim, views,
};
use vstd::prelude::*;
use vstd::string::*;

verus! {

/// The state of the splitter between two characters.
pub struct SplitState {
    /// The stages closed so far.
    pub stages: Seq<Seq<char>>,
    /// The characters read since the last separator.
    pub current: Seq<char>,
    pub mode: Mode,
    /// Whether a separator was met.
    pub cut: bool,
}

/// The state before the first character.
pub open spec fn split_start() -> SplitState {
    SplitState { stages: Seq::empty(), current: Seq::empty(), mode: Mode::Plain, cut: false }
}

/// The state after one more character.
pub open spec fn split_step(st: SplitState, c: char) -> SplitState {
    if st.mode == Mode::Plain && c == '|' {
        SplitState {
            stages: keep_trimmed(st.stages, st.current),
            current: Seq::empty(),
            mode: Mode::Plain,
            cut: true,
        }
    } else {
        SplitState { current: st.current.push(c), mode: after(st.mode, c), ..st }
    }
}

/// The state after the characters of `s`, starting from `st`.
pub open spec fn split_run(st: SplitState, s: Seq<char>) -> SplitState
    decreases s.len(),
{
    if s.len() == 0 {
        st
    } else {
        split_step(split_run(st, s.drop_last()), s.last())
    }
}

/// The stages of a line. A line without a separator is one stage: the line
/// as it is. Otherwise the stages are the trimmed texts between the
/// separators, without the blank ones; if they are all blank, the line is its
/// own single stage.
pub open spec fn stages_of(line: Seq<char>) -> Seq<Seq<char>> {
    let end = split_run(split_start(), line);
    let stages = keep_trimmed(end.stages, end.current);
    if !end.cut || stages.len() == 0 {
        seq![line]
    } else {
        stages
    }
}

/// The splitter is in and out of quotes exactly where the lexer is: both
/// follow the shared tracking, character by character.
pub proof fn lemma_splitter_tracks_quotes(st: SplitState, s: Seq<char>)
    ensures
        split_run(st, s).mode == after_all(st.mode, s),
    decreases s.len(),
{
    if s.len() > 0 {
        lemma_splitter_tracks_quotes(st, s.drop_last());
    }
}

/// Whether `s` holds no `|`.
pub open spec fn has_no_pipe(s: Seq<char>) -> bool {
    forall|i: int| 0 <= i < s.len() ==> s[i] != '|'
}

/// Running over a text in two parts is running over the whole.
pub proof fn lemma_split_run_concat(st: SplitState, a: Seq<char>, b: Seq<char>)
    ensures
        split_run(st, a + b) == split_run(split_run(st, a), b),
    decreases b.len(),
{
    if b.len() == 0 {
        assert(a + b =~= a);
    } else {
        lemma_split_run_concat(st, a, b.drop_last());
        assert((a + b).drop_last() =~= a + b.drop_last());
        assert((a + b).last() == b.last());
    }
}

/// A text without `|` only grows the current stage.
pub proof fn lemma_split_run_no_pipe(st: SplitState, s: Seq<char>)
    requires
        has_no_pipe(s),
    ensures
        split_run(st, s).stages == st.stages,
        split_run(st, s).current == st.current + s,
        split_run(st, s).cut == st.cut,
    decreases s.len(),
{
    if s.len() == 0 {
        assert(st.current + s =~= st.current);
    } else {
        lemma_split_run_no_pipe(st, s.drop_last());
        assert((st.current + s.drop_last()).push(s.last()) =~= st.current + s);
    }
}

/// A line without `|` is a single stage equal to the line.
pub proof fn lemma_no_pipe_is_one_stage(line: Seq<char>)
    requires
        has_no_pipe(line),
    ensures
        stages_of(line) == seq![line],
{
    lemma_split_run_no_pipe(split_start(), line);
}

proof fn lemma_split_run_uncut(s: Seq<char>, k: int)
    requires
        is_protected(s, '|'),
        0 <= k <= s.len(),
    ensures
        split_run(split_start(), s.take(k)) == (SplitState {
            current: s.take(k),
            mode: after_all(Mode::Plain, s.take(k)),
            ..split_start()
        }),
    decreases k,
{
    if k == 0 {
        assert(s.take(0) =~= Seq::<char>::empty());
    } else {
        lemma_split_run_uncut(s, k - 1);
        assert(s.take(k).drop_last() =~= s.take(k - 1));
        assert(s.take(k - 1).push(s[k - 1]) =~= s.take(k));
    }
}

/// A line whose every `|` stands inside quotes or behind a backslash is a
/// single stage equal to the line.
pub proof fn lemma_quoted_pipes_do_not_split(line: Seq<char>)
    requires
        is_protected(line, '|'),
    ensures
        stages_of(line) == seq![line],
{
    lemma_split_run_uncut(line, line.len() as int);
    assert(line.take(line.len() as int) =~= line);
}

/// A text without `|`, quotes and backslashes, read outside quotes, grows the
/// current stage and ends outside quotes.
pub proof fn lemma_split_run_bare(st: SplitState, s: Seq<char>)
    requires
        st.mode == Mode::Plain,
        has_no_pipe(s),
        is_bare(s),
    ensures
        split_run(st, s) == (SplitState { current: st.current + s, ..st }),
    decreases s.len(),
{
    if s.len() == 0 {
        assert(st.current + s =~= st.current);
    } else {
        lemma_split_run_bare(st, s.drop_last());
        assert((st.current + s.drop_last()).push(s.last()) =~= st.current + s);
    }
}

/// The texts of `segments` in order, with one `|` between neighbours.
pub open spec fn piped(segments: Seq<Seq<char>>) -> Seq<char>
    decreases segments.len(),
{
    if segments.len() == 0 {
        Seq::empty()
    } else if segments.len() == 1 {
        segments[0]
    } else {
        piped(segments.drop_last()) + seq!['|'] + segments.last()
    }
}

/// Whether a text can stand as a stage of its own between two `|`: it holds
/// no `|`, no quote and no backslash, and it is not blank.
pub open spec fn is_plain_stage(s: Seq<char>) -> bool {
    has_no_pipe(s) && is_bare(s) && trim(s).len() > 0
}

/// The segments, each trimmed.
pub open spec fn trimmed_all(segments: Seq<Seq<char>>) -> Seq<Seq<char>> {
    Seq::new(segments.len(), |i: int| trim(segments[i]))
}

/// The stages that segments joined by `|` give: a single segment as it is,
/// two or more each trimmed.
pub open spec fn plain_stages(segments: Seq<Seq<char>>) -> Seq<Seq<char>> {
    if segments.len() == 1 {
        segments
    } else {
        trimmed_all(segments)
    }
}

proof fn lemma_piped_run(segments: Seq<Seq<char>>)
    requires
        segments.len() >= 1,
        forall|i: int| 0 <= i < segments.len() ==> is_plain_stage(#[trigger] segments[i]),
    ensures
        split_run(split_start(), piped(segments)) == (SplitState {
            stages: trimmed_all(segments.drop_last()),
            current: segments.last(),
            mode: Mode::Plain,
            cut: segments.len() >= 2,
        }),
    decreases segments.len(),
{
    let last = segments.last();
    if segments.len() == 1 {
        lemma_split_run_bare(split_start(), last);
        assert(Seq::<char>::empty() + last =~= last);
        assert(trimmed_all(segments.drop_last()) =~= Seq::<Seq<char>>::empty());
    } else {
        let front = segments.drop_last();
        assert forall|i: int| 0 <= i < front.len() implies is_plain_stage(#[trigger] front[i]) by {
            assert(front[i] == segments[i]);
        }
        lemma_piped_run(front);
        let before = split_run(split_start(), piped(front));
        let bar = seq!['|'];
        lemma_split_run_concat(split_start(), piped(front) + bar, last);
        lemma_split_run_concat(split_start(), piped(front), bar);
        assert(bar.drop_last() =~= Seq::<char>::empty());
        assert(split_run(before, bar.drop_last()) == before);
        assert(bar.last() == '|');
        assert(split_run(before, bar) == split_step(before, '|'));
        let cut = split_step(before, '|');
        assert(cut.stages =~= trimmed_all(front));
        lemma_split_run_bare(cut, last);
        assert(Seq::<char>::empty() + last =~= last);
    }
}

/// A line of `n` stages has `n` stages: where each of the texts between the
/// `|` of a line can stand as a stage of its own, the stages of the line are
/// these texts, one for one and in order; each is trimmed, but for a line of
/// one text, which is its own stage as it is.
pub proof fn lemma_stage_count(segments: Seq<Seq<char>>)
    requires
        segments.len() >= 1,
        forall|i: int| 0 <= i < segments.len() ==> is_plain_stage(#[trigger] segments[i]),
    ensures
        stages_of(piped(segments)) == plain_stages(segments),
        stages_of(piped(segments)).len() == segments.len(),
{
    lemma_piped_run(segments);
    assert(trimmed_all(segments.drop_last()).push(trim(segments.last())) =~= trimmed_all(
        segments,
    ));
    if segments.len() == 1 {
        assert(seq![segments[0]] =~= segments);
    }
}

/// Every stage is the line itself or a trimmed text that is not empty.
pub open spec fn stages_are_trimmed(line: Seq<char>, stages: Seq<Seq<char>>) -> bool {
    forall|i: int|
        0 <= i < stages.len() ==> {
            ||| stages == seq![line]
            ||| ((#[trigger] stages[i]).len() > 0 && trim(stages[i]) == stages[i])
        }
}

proof fn lemma_split_run_trimmed(st: SplitState, s: Seq<char>)
    requires
        forall|i: int|
            0 <= i < st.stages.len() ==> (#[trigger] st.stages[i]).len() > 0 && trim(st.stages[i])
                == st.stages[i],
    ensures
        forall|i: int|
            0 <= i < split_run(st, s).stages.len() ==> (#[trigger] split_run(st, s).stages[i]).len()
                > 0 && trim(split_run(st, s).stages[i]) == split_run(st, s).stages[i],
    decreases s.len(),
{
    if s.len() > 0 {
        lemma_split_run_trimmed(st, s.drop_last());
        let before = split_run(st, s.drop_last());
        lemma_trim_is_idempotent(before.current);
    }
}

/// The stages of a line are trimmed and not empty, unless the line has no
/// stage but itself.
pub proof fn lemma_stages_are_trimmed(line: Seq<char>)
    ensures
        stages_of(line).len() >= 1,
        stages_are_trimmed(line, stages_of(line)),
{
    lemma_split_run_trimmed(split_start(), line);
    let end = split_run(split_start(), line);
    lemma_trim_is_idempotent(end.current);
}

/// Splits a line into its stages at every `|` outside quotes. A line
/// without such a `|` comes back as it is, as one stage. Otherwise each stage
/// is trimmed and blank stages are dropped; if none is left, the line comes
/// back as it is.
pub fn parse_pipeline(input: &str) -> (stages: Vec<String>)
    ensures
        views(stages@) == stages_of(input@),
        stages.len() >= 1,
        stages_are_trimmed(input@, views(stages@)),
{
    let chars = to_chars(input);
    let mut stages: Vec<String> = Vec::new();
    let mut first: usize = 0;
    let mut mode = Mode::Plain;
    let mut cut = false;
    let mut i: usize = 0;
    assert(views(stages@) =~= Seq::<Seq<char>>::empty());
    assert(chars@.take(0) =~= Seq::<char>::empty());
    assert(chars@.subrange(0, 0) =~= Seq::<char>::empty());
    while i < chars.len()
        invariant
            first <= i <= chars.len(),
            !cut ==> stages.len() == 0,
            (SplitState {
                stages: views(stages@),
                current: chars@.subrange(first as int, i as int),
                mode,
                cut,
            }) == split_run(split_start(), chars@.take(i as int)),
        decreases chars.len() - i,
    {
        let c = chars[i];
        proof {
            assert(chars@.take(i + 1).drop_last() =~= chars@.take(i as int));
            assert(chars@.take(i + 1).last() == c);
        }
        if mode == Mode::Plain && c == '|' {
            push_trimmed(&chars, first, i, &mut stages);
            first = i + 1;
            cut = true;
            assert(chars@.subrange(first as int, first as int) =~= Seq::<char>::empty());
        } else {
            mode = advance(mode, c);
            assert(chars@.subrange(first as int, i as int).push(c) =~= chars@.subrange(
                first as int,
                i + 1,
            ));
        }
        i += 1;
    }
    assert(chars@.take(i as int) =~= chars@);
    if cut {
        push_trimmed(&chars, first, i, &mut stages);
    }
    if !cut || stages.len() == 0 {
        let whole = from_chars(&chars, 0, chars.len());
        assert(chars@.subrange(0, chars.len() as int) =~= chars@);
        proof {
            lemma_views_push(stages@, whole);
            assert(views(stages@).push(whole@) =~= seq![input@]);
        }
        stages.push(whole);
    }
    proof {
        lemma_stages_are_trimmed(input@);
    }
    stages
}

} // verus!
