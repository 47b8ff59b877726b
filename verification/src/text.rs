//! Character-level helpers shared by the parsers: conversion between strings
//! and character vectors, whitespace classification and trimming.

use vstd::prelude::*;
use vstd::std_specs::iter::IteratorSpec;
use vstd::string::*;

verus! {

broadcast use vstd::string::group_string_axioms;

/// `String::push` of the standard library: the character is appended at the
/// end and nothing else changes.
pub assume_specification[ String::push ](s: &mut String, ch: char)
    ensures
        final(s)@ == old(s)@.push(ch),
;

/// The characters of a list of strings, one sequence per string.
pub open spec fn views(v: Seq<String>) -> Seq<Seq<char>> {
    Seq::new(v.len(), |i: int| v[i]@)
}

/// Pushing a string onto a list pushes its characters onto the list's view.
pub proof fn lemma_views_push(v: Seq<String>, s: String)
    ensures
        views(v.push(s)) == views(v).push(s@),
{
    assert(views(v.push(s)) =~= views(v).push(s@));
}

/// The characters of `s`, in order.
pub fn to_chars(s: &str) -> (out: Vec<char>)
    ensures
        out@ == s@,
{
    let mut out: Vec<char> = Vec::new();
    for c in it: s.chars()
        invariant
            it.seq() == s@,
            out@ == s@.take(it.index() as int),
    {
        out.push(c);
    }
    out
}

/// The string made of `v[from..to]`.
pub fn from_chars(v: &Vec<char>, from: usize, to: usize) -> (s: String)
    requires
        from <= to <= v.len(),
    ensures
        s@ == v@.subrange(from as int, to as int),
{
    let mut s = String::new();
    let mut i: usize = from;
    while i < to
        invariant
            from <= i <= to <= v.len(),
            s@ == v@.subrange(from as int, i as int),
        decreases to - i,
    {
        s.push(v[i]);
        assert(v@.subrange(from as int, i as int).push(v@[i as int]) =~= v@.subrange(
            from as int,
            i + 1,
        ));
        i += 1;
    }
    s
}

/// A copy of `s`.
pub fn copy_string(s: &String) -> (out: String)
    ensures
        out@ == s@,
{
    s.clone()
}

/// A copy of a list of strings.
pub fn copy_strings(v: &Vec<String>) -> (out: Vec<String>)
    ensures
        views(out@) == views(v@),
{
    let mut out: Vec<String> = Vec::new();
    let mut i: usize = 0;
    while i < v.len()
        invariant
            i <= v.len(),
            views(out@) == views(v@).take(i as int),
        decreases v.len() - i,
    {
        let s = copy_string(&v[i]);
        proof {
            lemma_views_push(out@, s);
            assert(views(v@).take(i + 1) =~= views(v@).take(i as int).push(s@));
        }
        out.push(s);
        i += 1;
    }
    assert(views(v@).take(i as int) =~= views(v@));
    out
}

/// Whether `chars` spells the text `lit`.
pub fn spells(chars: &Vec<char>, lit: &str) -> (same: bool)
    ensures
        same == (chars@ == lit@),
{
    let mut same = true;
    let mut n: usize = 0;
    for c in it: lit.chars()
        invariant
            it.seq() == lit@,
            same ==> n == it.index() && n <= chars.len() && chars@.take(n as int) == lit@.take(
                n as int,
            ),
            !same ==> chars@ != lit@,
    {
        if same {
            if n < chars.len() && chars[n] == c {
                assert(chars@.take(n + 1) =~= chars@.take(n as int).push(c));
                assert(lit@.take(n + 1) =~= lit@.take(n as int).push(c));
                n += 1;
            } else {
                assert(n < chars.len() ==> chars@[n as int] != lit@[n as int]);
                same = false;
            }
        }
    }
    if same && n == chars.len() {
        assert(chars@.take(n as int) =~= chars@);
        assert(lit@.take(n as int) =~= lit@);
        true
    } else {
        false
    }
}

/// The characters with the Unicode property `White_Space`.
pub open spec fn is_space(c: char) -> bool {
    let u = c as u32;
    ||| 0x09 <= u <= 0x0D
    ||| u == 0x20
    ||| u == 0x85
    ||| u == 0xA0
    ||| u == 0x1680
    ||| 0x2000 <= u <= 0x200A
    ||| u == 0x2028
    ||| u == 0x2029
    ||| u == 0x202F
    ||| u == 0x205F
    ||| u == 0x3000
}

/// Whether `c` is a whitespace character.
pub fn is_whitespace(c: char) -> (b: bool)
    ensures
        b == is_space(c),
{
    let u: u32 = c as u32;
    (0x09 <= u && u <= 0x0D) || u == 0x20 || u == 0x85 || u == 0xA0 || u == 0x1680 || (0x2000 <= u
        && u <= 0x200A) || u == 0x2028 || u == 0x2029 || u == 0x202F || u == 0x205F || u == 0x3000
}

/// `s` without its leading whitespace.
pub open spec fn trim_start(s: Seq<char>) -> Seq<char>
    decreases s.len(),
{
    if s.len() > 0 && is_space(s[0]) {
        trim_start(s.drop_first())
    } else {
        s
    }
}

/// `s` without its trailing whitespace.
pub open spec fn trim_end(s: Seq<char>) -> Seq<char>
    decreases s.len(),
{
    if s.len() > 0 && is_space(s.last()) {
        trim_end(s.drop_last())
    } else {
        s
    }
}

/// `s` without leading and trailing whitespace.
pub open spec fn trim(s: Seq<char>) -> Seq<char> {
    trim_end(trim_start(s))
}

/// Whether `s` holds nothing but whitespace.
pub open spec fn is_blank(s: Seq<char>) -> bool {
    forall|i: int| 0 <= i < s.len() ==> is_space(#[trigger] s[i])
}

/// The index of the first character of `v[from..to]` that is no whitespace,
/// or `to` if there is none.
pub fn skip_leading(v: &Vec<char>, from: usize, to: usize) -> (start: usize)
    requires
        from <= to <= v.len(),
    ensures
        from <= start <= to,
        v@.subrange(start as int, to as int) == trim_start(v@.subrange(from as int, to as int)),
{
    let mut i: usize = from;
    while i < to && is_whitespace(v[i])
        invariant
            from <= i <= to <= v.len(),
            trim_start(v@.subrange(i as int, to as int)) == trim_start(
                v@.subrange(from as int, to as int),
            ),
        decreases to - i,
    {
        assert(v@.subrange(i as int, to as int).drop_first() =~= v@.subrange(i + 1, to as int));
        i += 1;
    }
    i
}

/// The index after the last character of `v[from..to]` that is no
/// whitespace, or `from` if there is none.
pub fn skip_trailing(v: &Vec<char>, from: usize, to: usize) -> (end: usize)
    requires
        from <= to <= v.len(),
    ensures
        from <= end <= to,
        v@.subrange(from as int, end as int) == trim_end(v@.subrange(from as int, to as int)),
{
    let mut j: usize = to;
    while j > from && is_whitespace(v[j - 1])
        invariant
            from <= j <= to <= v.len(),
            trim_end(v@.subrange(from as int, j as int)) == trim_end(
                v@.subrange(from as int, to as int),
            ),
        decreases j - from,
    {
        assert(v@.subrange(from as int, j as int).drop_last() =~= v@.subrange(from as int, j - 1));
        j -= 1;
    }
    j
}

/// Trimming leaves a string empty exactly when it is blank.
pub proof fn lemma_trim_empty_iff_blank(s: Seq<char>)
    ensures
        trim(s).len() == 0 <==> is_blank(s),
        trim_start(s).len() == 0 <==> is_blank(s),
        trim_end(s).len() == 0 <==> is_blank(s),
{
    lemma_trim_start_shape(s);
    lemma_trim_end_shape(s);
    let t = trim_start(s);
    lemma_trim_end_shape(t);
    let k = s.len() - t.len();
    if t.len() == 0 {
        assert(s.subrange(0, k) =~= s);
    } else {
        assert(t[0] == s[k]);
    }
    let e = trim_end(s);
    if e.len() == 0 {
        assert(s.subrange(0, s.len() as int) =~= s);
    } else {
        assert(e.last() == s[e.len() - 1]);
    }
    if trim_end(t).len() == 0 && t.len() > 0 {
        assert(t.subrange(0, t.len() as int) =~= t);
        assert(is_space(t[0]));
    }
}

/// `trim_start` removes a blank prefix and stops at the first character that
/// is no whitespace.
pub proof fn lemma_trim_start_shape(s: Seq<char>)
    ensures
        trim_start(s).len() <= s.len(),
        trim_start(s) == s.subrange(s.len() - trim_start(s).len(), s.len() as int),
        is_blank(s.subrange(0, s.len() - trim_start(s).len())),
        trim_start(s).len() > 0 ==> !is_space(trim_start(s)[0]),
    decreases s.len(),
{
    if s.len() > 0 && is_space(s[0]) {
        let rest = s.drop_first();
        lemma_trim_start_shape(rest);
        let t = trim_start(rest);
        assert(t =~= s.subrange(s.len() - t.len(), s.len() as int));
        let k = s.len() - t.len();
        assert forall|i: int| 0 <= i < k implies is_space(#[trigger] s.subrange(0, k)[i]) by {
            if i > 0 {
                assert(s.subrange(0, k)[i] == rest.subrange(0, k - 1)[i - 1]);
            }
        }
    } else {
        assert(s =~= s.subrange(0, s.len() as int));
    }
}

/// `trim_end` removes a blank suffix and stops at the last character that is
/// no whitespace.
pub proof fn lemma_trim_end_shape(s: Seq<char>)
    ensures
        trim_end(s).len() <= s.len(),
        trim_end(s) == s.subrange(0, trim_end(s).len() as int),
        is_blank(s.subrange(trim_end(s).len() as int, s.len() as int)),
        trim_end(s).len() > 0 ==> !is_space(trim_end(s).last()),
    decreases s.len(),
{
    if s.len() > 0 && is_space(s.last()) {
        let rest = s.drop_last();
        lemma_trim_end_shape(rest);
        let t = trim_end(rest);
        assert(t =~= s.subrange(0, t.len() as int));
        let k = t.len() as int;
        assert forall|i: int| 0 <= i < s.len() - k implies is_space(
            #[trigger] s.subrange(k, s.len() as int)[i],
        ) by {
            if i < s.len() - k - 1 {
                assert(s.subrange(k, s.len() as int)[i] == rest.subrange(k, rest.len() as int)[i]);
            }
        }
    } else {
        assert(s =~= s.subrange(0, s.len() as int));
    }
}

/// Ends the word being built, if there is one.
pub open spec fn flush(done: Seq<Seq<char>>, word: Seq<char>) -> Seq<Seq<char>> {
    if word.len() > 0 {
        done.push(word)
    } else {
        done
    }
}

/// The words finished within `s`, and the word that its end is in.
pub open spec fn words_run(s: Seq<char>) -> (Seq<Seq<char>>, Seq<char>)
    decreases s.len(),
{
    if s.len() == 0 {
        (Seq::empty(), Seq::empty())
    } else {
        let (done, word) = words_run(s.drop_last());
        if is_space(s.last()) {
            (flush(done, word), Seq::empty())
        } else {
            (done, word.push(s.last()))
        }
    }
}

/// The words of `s`: its longest stretches without whitespace, in order.
pub open spec fn words(s: Seq<char>) -> Seq<Seq<char>> {
    flush(words_run(s).0, words_run(s).1)
}

/// The texts of `parts` in order, with one space between neighbours.
pub open spec fn joined(parts: Seq<Seq<char>>) -> Seq<char>
    decreases parts.len(),
{
    if parts.len() == 0 {
        Seq::empty()
    } else if parts.len() == 1 {
        parts[0]
    } else {
        joined(parts.drop_last()) + seq![' '] + parts.last()
    }
}

/// The words of `chars[from..to]`.
pub fn split_words(chars: &Vec<char>, from: usize, to: usize) -> (out: Vec<String>)
    requires
        from <= to <= chars.len(),
    ensures
        views(out@) == words(chars@.subrange(from as int, to as int)),
{
    let mut out: Vec<String> = Vec::new();
    let mut first: usize = from;
    let mut i: usize = from;
    let ghost text = chars@.subrange(from as int, to as int);
    assert(views(out@) =~= Seq::<Seq<char>>::empty());
    assert(text.take(0) =~= Seq::<char>::empty());
    assert(chars@.subrange(from as int, from as int) =~= Seq::<char>::empty());
    while i < to
        invariant
            from <= first <= i <= to <= chars.len(),
            text == chars@.subrange(from as int, to as int),
            words_run(text.take(i - from)) == (
                views(out@),
                chars@.subrange(first as int, i as int),
            ),
        decreases to - i,
    {
        let c = chars[i];
        proof {
            assert(text.take(i - from + 1).drop_last() =~= text.take(i - from));
            assert(text.take(i - from + 1).last() == c);
        }
        if is_whitespace(c) {
            if first < i {
                let word = from_chars(chars, first, i);
                proof {
                    lemma_views_push(out@, word);
                }
                out.push(word);
            }
            first = i + 1;
            assert(chars@.subrange(first as int, first as int) =~= Seq::<char>::empty());
        } else {
            assert(chars@.subrange(first as int, i as int).push(c) =~= chars@.subrange(
                first as int,
                i + 1,
            ));
        }
        i += 1;
    }
    assert(text.take(to - from) =~= text);
    if first < to {
        let word = from_chars(chars, first, to);
        proof {
            lemma_views_push(out@, word);
        }
        out.push(word);
    }
    out
}

/// The texts of `parts` in order, with one space between neighbours.
pub fn join_words(parts: &Vec<String>) -> (out: String)
    ensures
        out@ == joined(views(parts@)),
{
    let mut out = String::new();
    let mut i: usize = 0;
    let ghost all = views(parts@);
    assert(all.take(0) =~= Seq::<Seq<char>>::empty());
    while i < parts.len()
        invariant
            i <= parts.len(),
            all == views(parts@),
            out@ == joined(all.take(i as int)),
        decreases parts.len() - i,
    {
        proof {
            assert(all.take(i + 1).drop_last() =~= all.take(i as int));
            assert(all.take(i + 1).last() == parts@[i as int]@);
        }
        if i > 0 {
            out.push(' ');
            assert(out@ =~= joined(all.take(i as int)) + seq![' ']);
        } else {
            assert(out@ + parts@[i as int]@ =~= parts@[i as int]@);
        }
        out.append(parts[i].as_str());
        i += 1;
    }
    assert(all.take(i as int) =~= all);
    out
}

/// Adds `text`, trimmed, to a list, unless nothing is left of it.
pub open spec fn keep_trimmed(done: Seq<Seq<char>>, text: Seq<char>) -> Seq<Seq<char>> {
    if trim(text).len() > 0 {
        done.push(trim(text))
    } else {
        done
    }
}

/// Pushes `chars[from..to]`, trimmed, unless it is blank.
pub fn push_trimmed(chars: &Vec<char>, from: usize, to: usize, done: &mut Vec<String>)
    requires
        from <= to <= chars.len(),
    ensures
        views(final(done)@) == keep_trimmed(
            views(old(done)@),
            chars@.subrange(from as int, to as int),
        ),
{
    let start = skip_leading(chars, from, to);
    let end = skip_trailing(chars, start, to);
    if start < end {
        let text = from_chars(chars, start, end);
        proof {
            lemma_views_push(done@, text);
        }
        done.push(text);
    }
}

/// Trailing whitespace is removed from the end of a text whatever stands
/// before it: if the second part is blank, the end of the first is trimmed;
/// otherwise the first part stays whole.
pub proof fn lemma_trim_end_concat(a: Seq<char>, b: Seq<char>)
    ensures
        is_blank(b) ==> trim_end(a + b) == trim_end(a),
        !is_blank(b) ==> trim_end(a + b) == a + trim_end(b),
    decreases b.len(),
{
    if b.len() == 0 {
        assert(a + b =~= a);
    } else {
        assert((a + b).last() == b.last());
        assert((a + b).drop_last() =~= a + b.drop_last());
        lemma_trim_end_concat(a, b.drop_last());
        if is_space(b.last()) {
            if is_blank(b) {
                assert forall|i: int| 0 <= i < b.drop_last().len() implies is_space(
                    #[trigger] b.drop_last()[i],
                ) by {
                    assert(b.drop_last()[i] == b[i]);
                }
            } else {
                let i = choose|i: int| 0 <= i < b.len() && !is_space(b[i]);
                assert(b.drop_last()[i] == b[i]);
            }
        } else {
            assert(!is_space(b[b.len() - 1]));
        }
    }
}

/// Trimming twice is trimming once.
pub proof fn lemma_trim_is_idempotent(s: Seq<char>)
    ensures
        trim(trim(s)) == trim(s),
{
    lemma_trim_start_shape(s);
    let t = trim_start(s);
    lemma_trim_end_shape(t);
    let u = trim_end(t);
    if u.len() > 0 {
        assert(u[0] == t[0]);
    }
    assert(trim_start(u) == u);
    assert(trim_end(u) == u);
}

/// `s` without leading and trailing whitespace.
pub fn trim_text(s: &str) -> (out: String)
    ensures
        out@ == trim(s@),
{
    let chars = to_chars(s);
    let start = skip_leading(&chars, 0, chars.len());
    let end = skip_trailing(&chars, start, chars.len());
    assert(chars@.subrange(0, chars.len() as int) =~= chars@);
    from_chars(&chars, start, end)
}

} // verus!
