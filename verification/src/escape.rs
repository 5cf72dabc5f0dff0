//! Argument escaping for a single textual shell command line.
//!
//! An argument containing a space is wrapped in double quotes. Otherwise
//! literal newlines and semicolons, which would break or split the rendered
//! line, are each replaced by their shell-quoted spelling — a deliberate
//! hardening against command lines that would otherwise fall apart.

use vstd::prelude::*;
use crate::chars::{str_to_chars, chars_to_string};

verus! {

/// The spelling of one character inside an unquoted argument.
pub open spec fn esc_char(c: char) -> Seq<char> {
    if c == '\n' {
        seq!['$', '\'', '\n', '\'']
    } else if c == ';' {
        seq!['$', '\'', ';', '\'']
    } else {
        seq![c]
    }
}

/// Character-wise replacement of newlines and semicolons.
pub open spec fn esc_chars(s: Seq<char>) -> Seq<char>
    decreases s.len(),
{
    if s.len() == 0 {
        Seq::<char>::empty()
    } else {
        esc_chars(s.drop_last()) + esc_char(s.last())
    }
}

pub open spec fn contains_space(s: Seq<char>) -> bool {
    exists|i: int| 0 <= i < s.len() && s[i] == ' '
}

/// What escaping renders: quote-wrapping when a space occurs, character
/// replacement otherwise.
pub open spec fn escape_spec(s: Seq<char>) -> Seq<char> {
    if contains_space(s) {
        seq!['"'] + s + seq!['"']
    } else {
        esc_chars(s)
    }
}

/// Makes one argument safe to place in a single shell command line.
pub fn shell_escape(arg: String) -> (r: String)
    ensures
        r@ == escape_spec(arg@),
{
    let v = str_to_chars(arg.as_str());
    let mut has_space = false;
    let mut i: usize = 0;
    while i < v.len()
        invariant
            i <= v@.len(),
            has_space == exists|j: int| 0 <= j < i && v@[j] == ' ',
        decreases v@.len() - i,
    {
        if v[i] == ' ' {
            has_space = true;
        }
        i = i + 1;
    }
    assert(has_space == contains_space(v@));
    let mut out: Vec<char> = Vec::new();
    if has_space {
        out.push('"');
        let mut j: usize = 0;
        while j < v.len()
            invariant
                j <= v@.len(),
                out@ == seq!['"'] + v@.subrange(0, j as int),
            decreases v@.len() - j,
        {
            out.push(v[j]);
            assert(out@ =~= seq!['"'] + v@.subrange(0, j + 1 as int));
            j = j + 1;
        }
        out.push('"');
        assert(out@ =~= escape_spec(arg@));
    } else {
        let mut j: usize = 0;
        while j < v.len()
            invariant
                j <= v@.len(),
                out@ == esc_chars(v@.subrange(0, j as int)),
            decreases v@.len() - j,
        {
            let c = v[j];
            if c == '\n' {
                out.push('$');
                out.push('\'');
                out.push('\n');
                out.push('\'');
            } else if c == ';' {
                out.push('$');
                out.push('\'');
                out.push(';');
                out.push('\'');
            } else {
                out.push(c);
            }
            proof {
                let pre = v@.subrange(0, j as int);
                assert(v@.subrange(0, j + 1 as int) =~= pre.push(v@[j as int]));
                assert(v@.subrange(0, j + 1 as int).drop_last() =~= pre);
                assert(out@ =~= esc_chars(pre) + esc_char(v@[j as int]));
            }
            j = j + 1;
        }
        assert(v@.subrange(0, v@.len() as int) =~= v@);
        assert(out@ =~= escape_spec(arg@));
    }
    chars_to_string(&out)
}

} // verus!
