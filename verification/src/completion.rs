//! Completion of the command name: which part of the line is completed, and
//! which names are offered for it.

use crate::text::{
    copy_string, from_chars, is_space, is_whitespace, lemma_views_push, skip_leading, to_chars,
    trim_start, views,
};
use vstd::prelude::*;
use vstd::string::*;

verus! {

/// Whether the text before the cursor is still in the command name: it is
/// unless, leading whitespace apart, it holds a space.
pub open spec fn in_command_name(before: Seq<char>) -> bool {
    !trim_start(before).contains(' ')
}

/// The word that the cursor stands behind: the longest end of the text
/// without whitespace.
pub open spec fn last_word(before: Seq<char>) -> Seq<char>
    decreases before.len(),
{
    if before.len() == 0 || is_space(before.last()) {
        Seq::empty()
    } else {
        last_word(before.drop_last()).push(before.last())
    }
}

/// The part of the line that completion replaces, given the text before the
/// cursor: the word behind which the cursor stands, or nothing to complete
/// when the cursor is past the command name.
pub fn completion_prefix(before: &str) -> (prefix: Option<String>)
    ensures
        prefix is Some <==> in_command_name(before@),
        prefix matches Some(p) ==> p@ == last_word(before@),
{
    let chars = to_chars(before);
    let n: usize = chars.len();
    let first = skip_leading(&chars, 0, n);
    assert(chars@.subrange(0, n as int) =~= chars@);
    let ghost rest = trim_start(chars@);
    let mut i: usize = first;
    while i < n
        invariant
            first <= i <= n,
            n == chars.len(),
            rest == chars@.subrange(first as int, n as int),
            rest == trim_start(before@),
            forall|j: int| first <= j < i ==> chars@[j] != ' ',
        decreases n - i,
    {
        if chars[i] == ' ' {
            assert(rest[i - first] == ' ');
            assert(rest.contains(' '));
            return None;
        }
        i += 1;
    }
    assert(!rest.contains(' ')) by {
        if rest.contains(' ') {
            let j = choose|j: int| 0 <= j < rest.len() && rest[j] == ' ';
            assert(chars@[first + j] == ' ');
        }
    }
    let mut start: usize = n;
    assert(chars@.take(n as int) =~= chars@);
    assert(chars@.subrange(n as int, n as int) =~= Seq::<char>::empty());
    while start > 0 && !is_whitespace(chars[start - 1])
        invariant
            start <= n,
            n == chars.len(),
            last_word(chars@) == last_word(chars@.take(start as int)) + chars@.subrange(
                start as int,
                n as int,
            ),
        decreases start,
    {
        let ghost head = chars@.take(start as int);
        assert(head.drop_last() =~= chars@.take(start - 1));
        assert(last_word(head.drop_last()).push(head.last()) + chars@.subrange(
            start as int,
            n as int,
        ) =~= last_word(head.drop_last()) + chars@.subrange(start - 1, n as int));
        start -= 1;
    }
    assert(last_word(chars@.take(start as int)) =~= Seq::<char>::empty());
    assert(Seq::<char>::empty() + chars@.subrange(start as int, n as int) =~= chars@.subrange(
        start as int,
        n as int,
    ));
    Some(from_chars(&chars, start, n))
}

/// The built-ins that completion offers.
pub open spec fn offered_builtins() -> Seq<Seq<char>> {
    seq!["echo"@, "exit"@]
}

/// The names of `names` that start with `prefix`, in the order of `names`.
pub open spec fn with_prefix(names: Seq<Seq<char>>, prefix: Seq<char>) -> Seq<Seq<char>>
    decreases names.len(),
{
    if names.len() == 0 {
        Seq::empty()
    } else if prefix.is_prefix_of(names.last()) {
        with_prefix(names.drop_last(), prefix).push(names.last())
    } else {
        with_prefix(names.drop_last(), prefix)
    }
}

/// Whether `name` starts with `prefix`.
pub fn starts_with(name: &Vec<char>, prefix: &Vec<char>) -> (b: bool)
    ensures
        b == prefix@.is_prefix_of(name@),
{
    if prefix.len() > name.len() {
        return false;
    }
    let mut i: usize = 0;
    while i < prefix.len()
        invariant
            i <= prefix.len() <= name.len(),
            forall|j: int| 0 <= j < i ==> prefix@[j] == name@[j],
        decreases prefix.len() - i,
    {
        if prefix[i] != name[i] {
            assert(prefix@ != name@.subrange(0, prefix@.len() as int)) by {
                assert(name@.subrange(0, prefix@.len() as int)[i as int] == name@[i as int]);
            }
            return false;
        }
        i += 1;
    }
    assert(prefix@ =~= name@.subrange(0, prefix@.len() as int));
    true
}

/// Every name offered for `prefix`: the offered built-ins first, then the
/// names of the executables, each as far as it starts with `prefix`. The
/// names come in the order given, not sorted.
pub fn candidates(prefix: &str, executables: &Vec<String>) -> (offered: Vec<String>)
    ensures
        views(offered@) == with_prefix(offered_builtins(), prefix@) + with_prefix(
            views(executables@),
            prefix@,
        ),
{
    let wanted = to_chars(prefix);
    let mut offered: Vec<String> = Vec::new();
    let ghost builtins = offered_builtins();
    proof {
        assert(builtins.drop_last() =~= seq!["echo"@]);
        assert(seq!["echo"@].drop_last() =~= Seq::<Seq<char>>::empty());
        assert(views(offered@) =~= Seq::<Seq<char>>::empty());
        reveal_with_fuel(with_prefix, 3);
    }
    let echo = to_chars("echo");
    if starts_with(&echo, &wanted) {
        let name = "echo".to_owned();
        proof {
            lemma_views_push(offered@, name);
        }
        offered.push(name);
    }
    let exit = to_chars("exit");
    if starts_with(&exit, &wanted) {
        let name = "exit".to_owned();
        proof {
            lemma_views_push(offered@, name);
        }
        offered.push(name);
    }
    assert(views(offered@) =~= with_prefix(builtins, prefix@));
    let ghost first = views(offered@);
    let ghost all = views(executables@);
    let mut i: usize = 0;
    assert(all.take(0) =~= Seq::<Seq<char>>::empty());
    assert(first + Seq::<Seq<char>>::empty() =~= first);
    while i < executables.len()
        invariant
            i <= executables.len(),
            all == views(executables@),
            wanted@ == prefix@,
            views(offered@) == first + with_prefix(all.take(i as int), prefix@),
        decreases executables.len() - i,
    {
        proof {
            assert(all.take(i + 1).drop_last() =~= all.take(i as int));
            assert(all.take(i + 1).last() == executables@[i as int]@);
        }
        let name = to_chars(executables[i].as_str());
        if starts_with(&name, &wanted) {
            let copy = copy_string(&executables[i]);
            proof {
                lemma_views_push(offered@, copy);
                assert((first + with_prefix(all.take(i as int), prefix@)).push(copy@) =~= first
                    + with_prefix(all.take(i as int), prefix@).push(copy@));
            }
            offered.push(copy);
        }
        i += 1;
    }
    assert(all.take(i as int) =~= all);
    offered
}

} // verus!
