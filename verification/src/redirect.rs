//! The redirection parser: takes the redirection operators and their file
//! names out of a stage and leaves the command.
//!
//! Operators are recognised outside quotes only. A file name runs to the
//! next space or operator outside quotes, and keeps its quotes. The scan
//! keeps the list of redirections in the order in which they stand in the
//! stage; the slot of a descriptor then holds the last one listed for it.

use crate::quote::{
    advance, after, after_all, is_protected, lemma_after_all_first, lemma_after_all_next, Mode,
};
use crate::text::{
    copy_string, from_chars, skip_leading, skip_trailing, to_chars, trim, trim_end,
};
use vstd::prelude::*;
use vstd::string::*;

verus! {

/// The descriptor that a redirection replaces.
#[derive(Clone, Copy, PartialEq, Eq, Debug, Structural)]
pub enum Fd {
    /// Standard output, descriptor 1.
    Stdout,
    /// Standard error, descriptor 2.
    Stderr,
}

/// A redirection operator as it stands in the text.
#[derive(Clone, Copy, PartialEq, Eq, Debug, Structural)]
pub struct Operator {
    pub fd: Fd,
    /// `true` for `>>`, `false` for `>`.
    pub append: bool,
    /// The number of characters of the operator.
    pub len: usize,
}

/// Where a descriptor is sent: the model of a `RedirectTarget`.
pub struct Target {
    pub path: Seq<char>,
    pub append: bool,
}

/// One redirection of a stage.
pub struct Redirect {
    pub fd: Fd,
    pub target: Target,
}

/// The two slots of a redirection set: the model of a `Redirection`.
pub struct Slots {
    pub out: Option<Target>,
    pub err: Option<Target>,
}

/// The file that a descriptor is sent to, and whether it is appended to.
#[derive(Clone, Debug, PartialEq, Eq)]
pub struct RedirectTarget {
    pub path: String,
    /// `true`: keep what the file holds and write at its end; `false`:
    /// empty the file first.
    pub append: bool,
}

impl View for RedirectTarget {
    type V = Target;

    open spec fn view(&self) -> Target {
        Target { path: self.path@, append: self.append }
    }
}

/// The redirection set of a stage: one optional target for standard output
/// and one for standard error. An empty slot leaves the descriptor as it is.
#[derive(Clone, Debug, PartialEq, Eq)]
pub struct Redirection {
    pub stdout: Option<RedirectTarget>,
    pub stderr: Option<RedirectTarget>,
}

/// The model of an optional target.
pub open spec fn target_view(t: Option<RedirectTarget>) -> Option<Target> {
    match t {
        Some(t) => Some(t@),
        None => None,
    }
}

impl View for Redirection {
    type V = Slots;

    open spec fn view(&self) -> Slots {
        Slots { out: target_view(self.stdout), err: target_view(self.stderr) }
    }
}

/// The slots of an optional redirection set; none stands for two empty
/// slots.
pub open spec fn slots_of(r: Option<Redirection>) -> Slots {
    match r {
        Some(r) => r@,
        None => Slots { out: None, err: None },
    }
}

/// Whether a redirection set, where there is one, fills at least one slot.
pub open spec fn fills_a_slot(r: Option<Redirection>) -> bool {
    r matches Some(set) ==> set.stdout is Some || set.stderr is Some
}

/// A copy of a target.
pub fn copy_target(t: &Option<RedirectTarget>) -> (out: Option<RedirectTarget>)
    ensures
        target_view(out) == target_view(*t),
{
    match t {
        Some(t) => Some(RedirectTarget { path: copy_string(&t.path), append: t.append }),
        None => None,
    }
}

/// A copy of a redirection set.
pub fn copy_redirection(r: &Option<Redirection>) -> (out: Option<Redirection>)
    ensures
        slots_of(out) == slots_of(*r),
        out is Some <==> *r is Some,
        fills_a_slot(*r) ==> fills_a_slot(out),
{
    match r {
        Some(r) => Some(
            Redirection { stdout: copy_target(&r.stdout), stderr: copy_target(&r.stderr) },
        ),
        None => None,
    }
}

/// The operator that starts at index `i` of `s`, if one does: `>`, `>>`,
/// `1>`, `1>>`, `2>` or `2>>`. A `1` or `2` belongs to an operator only when
/// `>` follows it at once.
pub open spec fn operator_at(s: Seq<char>, i: int) -> Option<Operator> {
    if 0 <= i < s.len() && s[i] == '>' {
        if i + 1 < s.len() && s[i + 1] == '>' {
            Some(Operator { fd: Fd::Stdout, append: true, len: 2 })
        } else {
            Some(Operator { fd: Fd::Stdout, append: false, len: 1 })
        }
    } else if 0 <= i && i + 1 < s.len() && (s[i] == '1' || s[i] == '2') && s[i + 1] == '>' {
        let fd = if s[i] == '1' {
            Fd::Stdout
        } else {
            Fd::Stderr
        };
        if i + 2 < s.len() && s[i + 2] == '>' {
            Some(Operator { fd, append: true, len: 3 })
        } else {
            Some(Operator { fd, append: false, len: 2 })
        }
    } else {
        None
    }
}

/// Append or truncate: an operator appends exactly when it is written with
/// `>>`, and it stands for standard error exactly when it starts with `2`.
pub proof fn lemma_operator_mode(s: Seq<char>, i: int)
    requires
        operator_at(s, i) is Some,
    ensures
        ({
            let op = operator_at(s, i)->0;
            &&& 1 <= op.len <= 3
            &&& i + op.len <= s.len()
            &&& s[i + op.len - 1] == '>'
            &&& op.append <==> op.len >= 2 && s[i + op.len - 2] == '>'
            &&& op.fd == Fd::Stderr <==> s[i] == '2'
            &&& !op.append ==> operator_at(s, i + op.len) is None || s[i + op.len] != '>'
        }),
{
}

/// The index of the first character at or after `i` that is no space.
pub open spec fn skip_spaces(s: Seq<char>, i: int) -> int
    decreases s.len() - i,
{
    if 0 <= i < s.len() && s[i] == ' ' {
        skip_spaces(s, i + 1)
    } else {
        i
    }
}

/// Whether a file name that is read in mode `m` ends before the character
/// at `i`: it does where that character stands outside quotes and is a space
/// or starts an operator.
pub open spec fn name_stops(s: Seq<char>, i: int, m: Mode) -> bool {
    m == Mode::Plain && (s[i] == ' ' || operator_at(s, i) is Some)
}

/// The index at which a file name ends whose reading stands at `i` in mode
/// `m`: at the next space outside quotes, at the start of the next operator
/// outside quotes, or at the end of the text.
pub open spec fn name_end(s: Seq<char>, i: int, m: Mode) -> int
    decreases s.len() - i,
{
    if 0 <= i < s.len() && !name_stops(s, i, m) {
        name_end(s, i + 1, after(m, s[i]))
    } else {
        i
    }
}

/// The index at which a file name that starts at `i` ends. The name starts
/// outside quotes; a quote or a backslash in it protects what follows as it
/// does in the command.
pub open spec fn filename_end(s: Seq<char>, i: int) -> int {
    name_end(s, i, Mode::Plain)
}

/// The file name that starts at `i`, trimmed. Quotes in it stay as they are.
pub open spec fn filename_at(s: Seq<char>, i: int) -> Seq<char> {
    trim(s.subrange(i, filename_end(s, i)))
}

/// Skipping spaces moves forward and stays within the text.
pub proof fn lemma_skip_spaces_bounds(s: Seq<char>, i: int)
    requires
        0 <= i <= s.len(),
    ensures
        i <= skip_spaces(s, i) <= s.len(),
    decreases s.len() - i,
{
    if i < s.len() && s[i] == ' ' {
        lemma_skip_spaces_bounds(s, i + 1);
    }
}

/// A file name ends at or behind its start, within the text.
pub proof fn lemma_name_end_bounds(s: Seq<char>, i: int, m: Mode)
    requires
        0 <= i <= s.len(),
    ensures
        i <= name_end(s, i, m) <= s.len(),
    decreases s.len() - i,
{
    if i < s.len() && !name_stops(s, i, m) {
        lemma_name_end_bounds(s, i + 1, after(m, s[i]));
    }
}

/// A file name that ends within the text ends outside quotes: the mode
/// reached behind it is the plain one.
pub proof fn lemma_name_ends_outside_quotes(s: Seq<char>, i: int, m: Mode)
    requires
        0 <= i <= s.len(),
        name_end(s, i, m) < s.len(),
    ensures
        after_all(m, s.subrange(i, name_end(s, i, m))) == Mode::Plain,
        name_stops(s, name_end(s, i, m), Mode::Plain),
    decreases s.len() - i,
{
    lemma_name_end_bounds(s, i, m);
    if i < s.len() && !name_stops(s, i, m) {
        let next = after(m, s[i]);
        lemma_name_end_bounds(s, i + 1, next);
        lemma_name_ends_outside_quotes(s, i + 1, next);
        let end = name_end(s, i, m);
        let name = s.subrange(i, end);
        assert(name.drop_first() =~= s.subrange(i + 1, end));
        lemma_after_all_first(m, name);
    } else {
        assert(s.subrange(i, i) =~= Seq::<char>::empty());
    }
}

/// The state of the scan between two steps.
pub struct ScanState {
    /// The characters of the command read so far.
    pub command: Seq<char>,
    /// The redirections read so far, in the order of the text.
    pub redirects: Seq<Redirect>,
    pub mode: Mode,
}

/// The state before the first character.
pub open spec fn scan_start() -> ScanState {
    ScanState { command: Seq::empty(), redirects: Seq::empty(), mode: Mode::Plain }
}

/// Adds a redirection to the list, unless its file name is empty.
pub open spec fn note(redirects: Seq<Redirect>, op: Operator, name: Seq<char>) -> Seq<Redirect> {
    if name.len() > 0 {
        redirects.push(Redirect { fd: op.fd, target: Target { path: name, append: op.append } })
    } else {
        redirects
    }
}

/// The index at which the file name of the operator `op`, found at `i`,
/// starts.
pub open spec fn name_start(s: Seq<char>, i: int, op: Operator) -> int {
    skip_spaces(s, i + op.len)
}

/// The state at the end of `s`, for a scan that stands at index `i` in state
/// `st`. Outside quotes an operator is taken out together with the spaces
/// and the file name that follow it; every other character goes to the
/// command. Behind a file name the scan goes on outside quotes, which is
/// where a name that ends within the text ends.
pub open spec fn scan(s: Seq<char>, i: int, st: ScanState) -> ScanState
    decreases s.len() - i,
{
    if i < 0 || i >= s.len() {
        st
    } else if st.mode == Mode::Plain && operator_at(s, i) is Some {
        let op = operator_at(s, i)->0;
        let from = name_start(s, i, op);
        proof {
            lemma_skip_spaces_bounds(s, i + op.len);
            lemma_name_end_bounds(s, from, Mode::Plain);
        }
        scan(
            s,
            filename_end(s, from),
            ScanState { redirects: note(st.redirects, op, filename_at(s, from)), ..st },
        )
    } else {
        scan(
            s,
            i + 1,
            ScanState { command: st.command.push(s[i]), mode: after(st.mode, s[i]), ..st },
        )
    }
}

/// The command that is left of a stage when its redirections are taken out,
/// without trailing whitespace.
pub open spec fn residual(stage: Seq<char>) -> Seq<char> {
    trim_end(scan(stage, 0, scan_start()).command)
}

/// The redirections of a stage, in the order in which they stand in it.
/// Operators without a file name are not listed.
pub open spec fn redirects_of(stage: Seq<char>) -> Seq<Redirect> {
    scan(stage, 0, scan_start()).redirects
}

/// Whether `s` holds no `>`.
pub open spec fn has_no_operator(s: Seq<char>) -> bool {
    forall|i: int| 0 <= i < s.len() ==> s[i] != '>'
}

proof fn lemma_scan_protected(s: Seq<char>, i: int, st: ScanState)
    requires
        0 <= i <= s.len(),
        is_protected(s, '>'),
        st.mode == after_all(Mode::Plain, s.take(i)),
    ensures
        scan(s, i, st).command == st.command + s.subrange(i, s.len() as int),
        scan(s, i, st).redirects == st.redirects,
    decreases s.len() - i,
{
    if i < s.len() {
        lemma_after_all_next(Mode::Plain, s, i);
        if st.mode == Mode::Plain && operator_at(s, i) is Some {
            assert(s[i] != '>');
            lemma_after_all_next(Mode::Plain, s, i);
            assert(after_all(Mode::Plain, s.take(i + 1)) == Mode::Plain);
            assert(s[i + 1] == '>');
            assert(false);
        }
        let next = ScanState { command: st.command.push(s[i]), mode: after(st.mode, s[i]), ..st };
        lemma_scan_protected(s, i + 1, next);
        assert(st.command.push(s[i]) + s.subrange(i + 1, s.len() as int) =~= st.command
            + s.subrange(i, s.len() as int));
    } else {
        assert(st.command + s.subrange(i, s.len() as int) =~= st.command);
    }
}

/// A stage whose every `>` stands inside quotes or behind a backslash
/// redirects nothing, and all of it is the command.
pub proof fn lemma_protected_operators_redirect_nothing(stage: Seq<char>)
    requires
        is_protected(stage, '>'),
    ensures
        redirects_of(stage) == Seq::<Redirect>::empty(),
        residual(stage) == trim_end(stage),
        slots(redirects_of(stage)) == (Slots { out: None, err: None }),
{
    assert(stage.take(0) =~= Seq::<char>::empty());
    lemma_scan_protected(stage, 0, scan_start());
    assert(Seq::<char>::empty() + stage.subrange(0, stage.len() as int) =~= stage);
}

/// A stage without `>` redirects nothing, and all of it is the command.
pub proof fn lemma_no_operator_no_redirection(stage: Seq<char>)
    requires
        has_no_operator(stage),
    ensures
        redirects_of(stage) == Seq::<Redirect>::empty(),
        residual(stage) == trim_end(stage),
        slots(redirects_of(stage)) == (Slots { out: None, err: None }),
{
    lemma_protected_operators_redirect_nothing(stage);
}

/// The target of the last redirection of `fd` in the list.
pub open spec fn last_for(redirects: Seq<Redirect>, fd: Fd) -> Option<Target>
    decreases redirects.len(),
{
    if redirects.len() == 0 {
        None
    } else if redirects.last().fd == fd {
        Some(redirects.last().target)
    } else {
        last_for(redirects.drop_last(), fd)
    }
}

/// The slots that a list of redirections fills.
pub open spec fn slots(redirects: Seq<Redirect>) -> Slots {
    Slots { out: last_for(redirects, Fd::Stdout), err: last_for(redirects, Fd::Stderr) }
}

/// Last writer wins: after one more redirection the slot of its descriptor
/// holds its target, whatever was listed before, and the other slot is as it
/// was.
pub proof fn lemma_last_redirect_wins(redirects: Seq<Redirect>, r: Redirect, other: Fd)
    requires
        other != r.fd,
    ensures
        last_for(redirects.push(r), r.fd) == Some(r.target),
        last_for(redirects.push(r), other) == last_for(redirects, other),
{
    assert(redirects.push(r).drop_last() =~= redirects);
}

/// A slot is filled exactly when the list holds a redirection of its
/// descriptor.
pub proof fn lemma_slot_filled_iff_listed(redirects: Seq<Redirect>, fd: Fd)
    ensures
        last_for(redirects, fd) is Some <==> exists|i: int|
            0 <= i < redirects.len() && redirects[i].fd == fd,
    decreases redirects.len(),
{
    if redirects.len() > 0 {
        lemma_slot_filled_iff_listed(redirects.drop_last(), fd);
        if redirects.last().fd == fd {
            assert(redirects[redirects.len() - 1].fd == fd);
        } else if last_for(redirects, fd) is Some {
            let i = choose|i: int|
                0 <= i < redirects.drop_last().len() && redirects.drop_last()[i].fd == fd;
            assert(redirects[i].fd == fd);
        } else {
            assert forall|i: int| 0 <= i < redirects.len() implies redirects[i].fd != fd by {
                if i < redirects.len() - 1 {
                    assert(redirects.drop_last()[i] == redirects[i]);
                }
            }
        }
    }
}

/// Whether `op` is one of the six operators: `>`, `>>`, `1>`, `1>>`, `2>`,
/// `2>>`.
pub open spec fn is_operator(op: Operator) -> bool {
    ||| op == (Operator { fd: Fd::Stdout, append: false, len: 1 })
    ||| op == (Operator { fd: Fd::Stdout, append: true, len: 2 })
    ||| op == (Operator { fd: Fd::Stdout, append: false, len: 2 })
    ||| op == (Operator { fd: Fd::Stdout, append: true, len: 3 })
    ||| op == (Operator { fd: Fd::Stderr, append: false, len: 2 })
    ||| op == (Operator { fd: Fd::Stderr, append: true, len: 3 })
}

/// The way an operator is written.
pub open spec fn operator_text(op: Operator) -> Seq<char> {
    if op.fd == Fd::Stderr {
        if op.append {
            seq!['2', '>', '>']
        } else {
            seq!['2', '>']
        }
    } else if op.len == 1 {
        seq!['>']
    } else if op.len == 3 {
        seq!['1', '>', '>']
    } else if op.append {
        seq!['>', '>']
    } else {
        seq!['1', '>']
    }
}

/// An operator is written in as many characters as it counts, and it
/// appends exactly when its text ends in `>>`.
pub proof fn lemma_operator_text(op: Operator)
    requires
        is_operator(op),
    ensures
        operator_text(op).len() == op.len,
        operator_text(op).last() == '>',
        op.append <==> operator_text(op).len() >= 2 && operator_text(op)[op.len - 2] == '>',
{
}

/// Whether `w` is a word of letters: it has a character, and each is one of
/// `a` to `z` or `A` to `Z`.
pub open spec fn is_letter_word(w: Seq<char>) -> bool {
    &&& w.len() > 0
    &&& forall|i: int| 0 <= i < w.len() ==> ('a' <= #[trigger] w[i] <= 'z' || 'A' <= w[i] <= 'Z')
}

/// An operator and the file name written behind it.
pub struct Written {
    pub op: Operator,
    pub name: Seq<char>,
}

/// Whether every operator of the list is one of the six and every name a
/// word of letters.
pub open spec fn all_written(pairs: Seq<Written>) -> bool {
    forall|i: int|
        0 <= i < pairs.len() ==> is_operator((#[trigger] pairs[i]).op) && is_letter_word(
            pairs[i].name,
        )
}

/// The text of a list of redirections: for each, a space, the operator, a
/// space and the name.
pub open spec fn redirections_text(pairs: Seq<Written>) -> Seq<char>
    decreases pairs.len(),
{
    if pairs.len() == 0 {
        Seq::empty()
    } else {
        seq![' '] + operator_text(pairs[0].op) + seq![' '] + pairs[0].name + redirections_text(
            pairs.drop_first(),
        )
    }
}

/// The redirections that a list of operators and names asks for, in order.
pub open spec fn asked(pairs: Seq<Written>) -> Seq<Redirect> {
    Seq::new(
        pairs.len(),
        |i: int|
            Redirect {
                fd: pairs[i].op.fd,
                target: Target { path: pairs[i].name, append: pairs[i].op.append },
            },
    )
}

/// `n` spaces.
pub open spec fn blanks(n: nat) -> Seq<char> {
    Seq::new(n, |i: int| ' ')
}

proof fn lemma_scan_letters(s: Seq<char>, i: int, n: int, st: ScanState)
    requires
        0 <= i,
        0 <= n,
        i + n <= s.len(),
        st.mode == Mode::Plain,
        is_letter_word(s.subrange(i, i + n)) || n == 0,
    ensures
        scan(s, i, st) == scan(
            s,
            i + n,
            ScanState { command: st.command + s.subrange(i, i + n), ..st },
        ),
    decreases n,
{
    if n == 0 {
        assert(st.command + s.subrange(i, i) =~= st.command);
    } else {
        let word = s.subrange(i, i + n);
        assert(word[0] == s[i]);
        assert(operator_at(s, i) is None);
        let next = ScanState { command: st.command.push(s[i]), ..st };
        assert forall|k: int| 0 <= k < n - 1 implies ('a' <= #[trigger] s.subrange(i + 1, i + n)[k]
            <= 'z' || 'A' <= s.subrange(i + 1, i + n)[k] <= 'Z') by {
            assert(s.subrange(i + 1, i + n)[k] == word[k + 1]);
        }
        lemma_scan_letters(s, i + 1, n - 1, next);
        assert(st.command.push(s[i]) + s.subrange(i + 1, i + n) =~= st.command + word);
    }
}

proof fn lemma_name_end_letters(s: Seq<char>, i: int, n: int)
    requires
        0 <= i,
        0 <= n,
        i + n <= s.len(),
        is_letter_word(s.subrange(i, i + n)) || n == 0,
        i + n == s.len() || s[i + n] == ' ',
    ensures
        name_end(s, i, Mode::Plain) == i + n,
    decreases n,
{
    if n > 0 {
        let word = s.subrange(i, i + n);
        assert(word[0] == s[i]);
        assert(operator_at(s, i) is None);
        assert forall|k: int| 0 <= k < n - 1 implies ('a' <= #[trigger] s.subrange(i + 1, i + n)[k]
            <= 'z' || 'A' <= s.subrange(i + 1, i + n)[k] <= 'Z') by {
            assert(s.subrange(i + 1, i + n)[k] == word[k + 1]);
        }
        lemma_name_end_letters(s, i + 1, n - 1);
    }
}

proof fn lemma_letter_word_is_trimmed(w: Seq<char>)
    requires
        is_letter_word(w),
    ensures
        trim(w) == w,
        trim_end(w) == w,
{
    assert(!crate::text::is_space(w[0]));
    assert(!crate::text::is_space(w[w.len() - 1]));
}

proof fn lemma_scan_written(s: Seq<char>, i: int, st: ScanState, pairs: Seq<Written>)
    requires
        0 <= i <= s.len(),
        s.subrange(i, s.len() as int) == redirections_text(pairs),
        st.mode == Mode::Plain,
        all_written(pairs),
    ensures
        scan(s, i, st) == (ScanState {
            command: st.command + blanks(pairs.len()),
            redirects: st.redirects + asked(pairs),
            mode: Mode::Plain,
        }),
    decreases pairs.len(),
{
    let tail = s.subrange(i, s.len() as int);
    if pairs.len() == 0 {
        assert(st.command + blanks(0) =~= st.command);
        assert(st.redirects + asked(pairs) =~= st.redirects);
    } else {
        let p = pairs[0];
        let rest = pairs.drop_first();
        let op = p.op;
        let o = op.len as int;
        let n = p.name.len() as int;
        let written = operator_text(op);
        let head = seq![' '] + written + seq![' '] + p.name;
        assert(tail == head + redirections_text(rest));
        assert(written.len() == o);
        assert(head.len() == o + n + 2);
        assert(i + o + n + 2 <= s.len());
        assert forall|k: int| 0 <= k < head.len() implies s[i + k] == #[trigger] head[k] by {
            assert(tail[k] == s[i + k]);
        }
        assert(s[i] == ' ') by {
            assert(head[0] == ' ');
        }
        assert forall|k: int| 0 <= k < o implies s[i + 1 + k] == #[trigger] written[k] by {
            assert(head[1 + k] == written[k]);
        }
        assert(s[i + 1 + o] == ' ') by {
            assert(head[1 + o] == ' ');
        }
        assert forall|k: int| 0 <= k < n implies s[i + 2 + o + k] == #[trigger] p.name[k] by {
            assert(head[2 + o + k] == p.name[k]);
        }
        let from = i + 2 + o;
        let end = from + n;
        assert(s.subrange(from, end) =~= p.name);
        assert(s.subrange(end, s.len() as int) =~= tail.subrange(
            head.len() as int,
            tail.len() as int,
        ));
        assert((head + redirections_text(rest)).subrange(head.len() as int, tail.len() as int)
            =~= redirections_text(rest));
        assert(end == s.len() || s[end] == ' ') by {
            if end < s.len() {
                assert(rest.len() > 0);
                assert(redirections_text(rest)[0] == ' ');
                assert(s.subrange(end, s.len() as int)[0] == s[end]);
            }
        }
        assert(operator_at(s, i) is None);
        let spaced = ScanState { command: st.command.push(' '), ..st };
        assert(scan(s, i, st) == scan(s, i + 1, spaced));
        assert(written[0] == s[i + 1]);
        assert(o >= 2 ==> written[1] == s[i + 2]);
        assert(o >= 3 ==> written[2] == s[i + 3]);
        assert(operator_at(s, i + 1) == Some(op));
        assert(p.name[0] == s[from]);
        assert(skip_spaces(s, i + 1 + o) == from) by {
            assert(skip_spaces(s, from) == from);
        }
        lemma_name_end_letters(s, from, n);
        lemma_letter_word_is_trimmed(p.name);
        let noted = ScanState {
            redirects: spaced.redirects.push(
                Redirect { fd: op.fd, target: Target { path: p.name, append: op.append } },
            ),
            ..spaced
        };
        assert(scan(s, i + 1, spaced) == scan(s, end, noted));
        assert forall|k: int| 0 <= k < rest.len() implies is_operator((#[trigger] rest[k]).op)
            && is_letter_word(rest[k].name) by {
            assert(rest[k] == pairs[k + 1]);
        }
        lemma_scan_written(s, end, noted, rest);
        assert(st.command.push(' ') + blanks(rest.len()) =~= st.command + blanks(pairs.len()));
        assert(noted.redirects + asked(rest) =~= st.redirects + asked(pairs)) by {
            assert forall|k: int| 0 <= k < asked(rest).len() implies asked(rest)[k] == asked(
                pairs,
            )[k + 1] by {
                assert(rest[k] == pairs[k + 1]);
            }
        }
    }
}

/// Last writer wins over a whole line: for a command followed by
/// redirections, each written as a space, an operator, a space and a name,
/// the command is what is left, the redirections are listed in the order of
/// the line, and so each descriptor is sent to the last target listed for
/// it, in the mode of that operator, whatever stood before.
pub proof fn lemma_line_of_redirections(command: Seq<char>, pairs: Seq<Written>)
    requires
        is_letter_word(command),
        all_written(pairs),
    ensures
        residual(command + redirections_text(pairs)) == command,
        redirects_of(command + redirections_text(pairs)) == asked(pairs),
        slots(redirects_of(command + redirections_text(pairs))) == (Slots {
            out: last_for(asked(pairs), Fd::Stdout),
            err: last_for(asked(pairs), Fd::Stderr),
        }),
{
    let s = command + redirections_text(pairs);
    let n = command.len() as int;
    assert(s.subrange(0, n) =~= command);
    assert(s.subrange(n, s.len() as int) =~= redirections_text(pairs));
    lemma_scan_letters(s, 0, n, scan_start());
    let read = ScanState { command: Seq::<char>::empty() + command, ..scan_start() };
    lemma_scan_written(s, n, read, pairs);
    assert(Seq::<char>::empty() + command =~= command);
    assert(Seq::<Redirect>::empty() + asked(pairs) =~= asked(pairs));
    crate::text::lemma_trim_end_concat(command, blanks(pairs.len()));
    lemma_letter_word_is_trimmed(command);
    assert(crate::text::is_blank(blanks(pairs.len())));
}

/// The operator that starts at `chars[i]`, if one does.
pub fn find_operator(chars: &Vec<char>, i: usize) -> (op: Option<Operator>)
    ensures
        op == operator_at(chars@, i as int),
{
    let n = chars.len();
    if i >= n {
        return None;
    }
    let c = chars[i];
    if c == '>' {
        if i + 1 < n && chars[i + 1] == '>' {
            Some(Operator { fd: Fd::Stdout, append: true, len: 2 })
        } else {
            Some(Operator { fd: Fd::Stdout, append: false, len: 1 })
        }
    } else if (c == '1' || c == '2') && i + 1 < n && chars[i + 1] == '>' {
        let fd = if c == '1' {
            Fd::Stdout
        } else {
            Fd::Stderr
        };
        if i + 2 < n && chars[i + 2] == '>' {
            Some(Operator { fd, append: true, len: 3 })
        } else {
            Some(Operator { fd, append: false, len: 2 })
        }
    } else {
        None
    }
}

/// Reads a file name from `chars`, starting at `*pos` outside quotes: up to
/// the next space or start of an operator that stands outside quotes, or to
/// the end. `*pos` is moved behind what was read. The name comes back
/// trimmed, with its quotes, if it has any, as they stand.
pub fn parse_filename(chars: &Vec<char>, pos: &mut usize) -> (name: String)
    requires
        *old(pos) <= chars.len(),
    ensures
        *final(pos) == filename_end(chars@, *old(pos) as int),
        *old(pos) <= *final(pos) <= chars.len(),
        name@ == filename_at(chars@, *old(pos) as int),
{
    let from: usize = *pos;
    let mut i: usize = from;
    let mut mode = Mode::Plain;
    while i < chars.len() && !(mode == Mode::Plain && (chars[i] == ' ' || find_operator(
        chars,
        i,
    ).is_some()))
        invariant
            from <= i <= chars.len(),
            name_end(chars@, i as int, mode) == filename_end(chars@, from as int),
        decreases chars.len() - i,
    {
        mode = advance(mode, chars[i]);
        i += 1;
    }
    *pos = i;
    let start = skip_leading(chars, from, i);
    let end = skip_trailing(chars, start, i);
    from_chars(chars, start, end)
}

/// Takes the redirections out of a stage. The first part of the result is
/// the command that is left, without trailing whitespace. The second holds,
/// for each of the two descriptors, the target of its last redirection; it
/// is `None` when the stage redirects nothing.
pub fn parse_redirection(input: &str) -> (r: (String, Option<Redirection>))
    ensures
        r.0@ == residual(input@),
        slots_of(r.1) == slots(redirects_of(input@)),
        r.1 is Some <==> redirects_of(input@).len() > 0,
        fills_a_slot(r.1),
{
    let chars = to_chars(input);
    let mut command: Vec<char> = Vec::new();
    let mut stdout: Option<RedirectTarget> = None;
    let mut stderr: Option<RedirectTarget> = None;
    let mut mode = Mode::Plain;
    let mut i: usize = 0;
    let ghost mut redirects: Seq<Redirect> = Seq::empty();
    while i < chars.len()
        invariant
            i <= chars.len(),
            chars@ == input@,
            scan(chars@, i as int, ScanState { command: command@, redirects, mode }) == scan(
                chars@,
                0,
                scan_start(),
            ),
            target_view(stdout) == last_for(redirects, Fd::Stdout),
            target_view(stderr) == last_for(redirects, Fd::Stderr),
        decreases chars.len() - i,
    {
        let found = if mode == Mode::Plain {
            find_operator(&chars, i)
        } else {
            None
        };
        match found {
            Some(op) => {
                let mut at: usize = i + op.len;
                while at < chars.len() && chars[at] == ' '
                    invariant
                        i < at <= chars.len(),
                        skip_spaces(chars@, at as int) == skip_spaces(chars@, i + op.len),
                    decreases chars.len() - at,
                {
                    at += 1;
                }
                let ghost from = at as int;
                let name = parse_filename(&chars, &mut at);
                if !name.as_str().is_empty() {
                    let target = RedirectTarget { path: name, append: op.append };
                    proof {
                        let r = Redirect { fd: op.fd, target: target@ };
                        lemma_last_redirect_wins(
                            redirects,
                            r,
                            if op.fd == Fd::Stdout {
                                Fd::Stderr
                            } else {
                                Fd::Stdout
                            },
                        );
                        redirects = redirects.push(r);
                    }
                    match op.fd {
                        Fd::Stdout => {
                            stdout = Some(target);
                        },
                        Fd::Stderr => {
                            stderr = Some(target);
                        },
                    }
                }
                i = at;
            },
            None => {
                let c = chars[i];
                command.push(c);
                mode = advance(mode, c);
                i += 1;
            },
        }
    }
    let end = skip_trailing(&command, 0, command.len());
    let rest = from_chars(&command, 0, end);
    proof {
        lemma_slot_filled_iff_listed(redirects, Fd::Stdout);
        lemma_slot_filled_iff_listed(redirects, Fd::Stderr);
        if redirects.len() > 0 {
            assert(redirects[0].fd == Fd::Stdout || redirects[0].fd == Fd::Stderr);
        }
        assert(command@.subrange(0, command.len() as int) =~= command@);
    }
    if stdout.is_some() || stderr.is_some() {
        (rest, Some(Redirection { stdout, stderr }))
    } else {
        (rest, None)
    }
}

} // verus!
