//! The decomposition model for host paths: splitting a character sequence at
//! separators, discarding empty and `.` components, and joining the rest with
//! forward slashes. Both translators' contracts are stated over these
//! functions.

use vstd::prelude::*;
use crate::chars::is_sep;

verus! {

/// Splits a sequence at every separator. The result always has one more
/// element than the sequence has separators; splitting the empty sequence
/// gives one empty component.
pub open spec fn split_seps(s: Seq<char>) -> Seq<Seq<char>>
    decreases s.len(),
{
    if s.len() == 0 {
        seq![Seq::<char>::empty()]
    } else if is_sep(s.last()) {
        split_seps(s.drop_last()).push(Seq::<char>::empty())
    } else {
        let r = split_seps(s.drop_last());
        r.drop_last().push(r.last().push(s.last()))
    }
}

/// A component that survives normalization: non-empty and not the
/// current-directory marker `.`.
pub open spec fn keep_comp(c: Seq<char>) -> bool {
    c.len() > 0 && c != seq!['.']
}

/// Drops the components that `keep_comp` rejects, keeping order.
pub open spec fn norm_comps(cs: Seq<Seq<char>>) -> Seq<Seq<char>>
    decreases cs.len(),
{
    if cs.len() == 0 {
        Seq::<Seq<char>>::empty()
    } else if keep_comp(cs.last()) {
        norm_comps(cs.drop_last()).push(cs.last())
    } else {
        norm_comps(cs.drop_last())
    }
}

/// Joins components, a forward slash before each one.
pub open spec fn join_slash(cs: Seq<Seq<char>>) -> Seq<char>
    decreases cs.len(),
{
    if cs.len() == 0 {
        Seq::<char>::empty()
    } else {
        join_slash(cs.drop_last()) + seq!['/'] + cs.last()
    }
}

/// Joins components the way a relative path is rendered: the first one
/// bare, a forward slash before each following one.
pub open spec fn join_relative(cs: Seq<Seq<char>>) -> Seq<char> {
    if cs.len() == 0 {
        Seq::<char>::empty()
    } else {
        cs[0] + join_slash(cs.drop_first())
    }
}

/// The full rendering of a path tail: split at separators, normalize, join.
pub open spec fn rendered_components(tail: Seq<char>) -> Seq<char> {
    join_slash(norm_comps(split_seps(tail)))
}

/// The rendering of a relative path: its components joined with forward
/// slashes, none leading.
pub open spec fn rendered_relative_components(s: Seq<char>) -> Seq<char> {
    join_relative(norm_comps(split_seps(s)))
}

pub proof fn lemma_split_len(s: Seq<char>)
    ensures
        split_seps(s).len() >= 1,
    decreases s.len(),
{
    if s.len() > 0 {
        lemma_split_len(s.drop_last());
    }
}

/// Extending the sequence by one character either starts a fresh (empty)
/// component, when the character is a separator, or extends the last one.
pub proof fn lemma_split_push(s: Seq<char>, c: char)
    ensures
        is_sep(c) ==> split_seps(s.push(c)) == split_seps(s).push(Seq::<char>::empty()),
        !is_sep(c) ==> split_seps(s.push(c)) == split_seps(s).drop_last().push(
            split_seps(s).last().push(c),
        ),
{
    let sp = s.push(c);
    assert(sp.len() == s.len() + 1);
    assert(sp.last() == c);
    assert(sp.drop_last() =~= s);
}

/// Normalization distributes over appending one component.
pub proof fn lemma_norm_push(cs: Seq<Seq<char>>, c: Seq<char>)
    ensures
        keep_comp(c) ==> norm_comps(cs.push(c)) == norm_comps(cs).push(c),
        !keep_comp(c) ==> norm_comps(cs.push(c)) == norm_comps(cs),
{
    let csp = cs.push(c);
    assert(csp.last() == c);
    assert(csp.drop_last() =~= cs);
}

/// Joining distributes over appending one component.
pub proof fn lemma_join_push(cs: Seq<Seq<char>>, c: Seq<char>)
    ensures
        join_slash(cs.push(c)) == join_slash(cs) + seq!['/'] + c,
{
    let csp = cs.push(c);
    assert(csp.last() == c);
    assert(csp.drop_last() =~= cs);
}

/// Relative joining distributes over appending one component: the first
/// component comes bare, every later one behind a slash.
pub proof fn lemma_join_relative_push(cs: Seq<Seq<char>>, c: Seq<char>)
    ensures
        cs.len() == 0 ==> join_relative(cs.push(c)) == c,
        cs.len() > 0 ==> join_relative(cs.push(c)) == join_relative(cs) + seq!['/'] + c,
{
    let csp = cs.push(c);
    if cs.len() == 0 {
        assert(csp[0] == c);
        assert(csp.drop_first() =~= Seq::<Seq<char>>::empty());
        assert(c + join_slash(Seq::<Seq<char>>::empty()) =~= c);
    } else {
        assert(csp[0] == cs[0]);
        assert(csp.drop_first() =~= cs.drop_first().push(c));
        lemma_join_push(cs.drop_first(), c);
        assert(cs[0] + (join_slash(cs.drop_first()) + seq!['/'] + c) =~= (cs[0] + join_slash(
            cs.drop_first(),
        )) + seq!['/'] + c);
    }
}

} // verus!
