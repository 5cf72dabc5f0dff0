//! Outbound translation: host-native command-line arguments to the execution
//! environment's path convention.
//!
//! An argument may carry a `--name=` option prefix, which is preserved
//! verbatim while the value is translated. A value with a drive-letter prefix
//! is rebuilt under the environment's mount root; a UNC-style or device
//! prefix has no single drive letter and is a hard error; a relative value is
//! separator-converted, but only when the caller answers that it names an
//! existing filesystem entry — that answer is I/O and comes in as a plain
//! `bool`; anything else passes through unchanged.

use vstd::prelude::*;
use crate::chars::{
    is_sep, is_ascii_letter, lower_char, sep, ascii_letter, to_lower, str_to_chars,
    chars_to_string, copy_range,
};
use crate::components::{
    split_seps, keep_comp, norm_comps, join_slash, join_relative, rendered_components,
    rendered_relative_components, lemma_split_len, lemma_split_push, lemma_norm_push,
    lemma_join_push, lemma_join_relative_push,
};
use crate::drive::prefix_for_drive;

verus! {

/// Why a whole invocation must be abandoned: a path's drive designation
/// cannot be resolved to a single letter.
#[derive(Clone, Copy, Debug, PartialEq, Eq, Structural)]
pub enum TranslateError {
    UnresolvableDrive,
}

/// Index of the first `=` in the sequence, or its length when there is none.
pub open spec fn first_eq(s: Seq<char>) -> int
    decreases s.len(),
{
    if s.len() == 0 {
        0
    } else if s[0] == '=' {
        0
    } else {
        1 + first_eq(s.drop_first())
    }
}

proof fn lemma_first_eq(s: Seq<char>)
    ensures
        0 <= first_eq(s) <= s.len(),
        first_eq(s) < s.len() ==> s[first_eq(s)] == '=',
        forall|k: int| 0 <= k < first_eq(s) ==> s[k] != '=',
    decreases s.len(),
{
    if s.len() > 0 && s[0] != '=' {
        lemma_first_eq(s.drop_first());
        assert(forall|k: int|
            0 <= k < first_eq(s) ==> s[k] != '=') by {
            assert(forall|k: int|
                1 <= k < first_eq(s) ==> s[k] == s.drop_first()[k - 1] && s[k] != '=');
        }
    }
}

/// An argument that carries a `--name=` option prefix.
pub open spec fn has_flag(arg: Seq<char>) -> bool {
    arg.len() >= 2 && arg[0] == '-' && arg[1] == '-' && first_eq(arg) < arg.len()
}

/// Length of the preserved option prefix, `=` included; zero when there is
/// none.
pub open spec fn flag_name_len(arg: Seq<char>) -> int {
    if has_flag(arg) {
        first_eq(arg) + 1
    } else {
        0
    }
}

/// An absolute host path: drive letter, colon, separator.
pub open spec fn drive_absolute(s: Seq<char>) -> bool {
    s.len() >= 3 && is_ascii_letter(s[0]) && s[1] == ':' && is_sep(s[2])
}

/// An absolute host path under the verbatim prefix `\\?\`, still naming a
/// single drive letter.
pub open spec fn verbatim_drive(s: Seq<char>) -> bool {
    s.len() >= 6 && s[0] == '\\' && s[1] == '\\' && s[2] == '?' && s[3] == '\\'
        && is_ascii_letter(s[4]) && s[5] == ':' && (s.len() == 6 || is_sep(s[6]))
}

/// A path that starts with two separators but names no drive letter:
/// UNC-style or a device prefix. No single letter can be extracted from it.
pub open spec fn unc_like(s: Seq<char>) -> bool {
    s.len() >= 2 && is_sep(s[0]) && is_sep(s[1]) && !verbatim_drive(s)
}

/// A relative path anchored at the bare current-directory marker, whose
/// leading `.` component is kept when the path is rendered.
pub open spec fn dot_anchored(s: Seq<char>) -> bool {
    s.len() >= 1 && s[0] == '.' && (s.len() == 1 || is_sep(s[1]))
}

/// The rendering of a relative path that names an existing entry: its
/// components separator-converted, a leading `.` component kept.
pub open spec fn rendered_relative(s: Seq<char>) -> Seq<char> {
    if dot_anchored(s) {
        seq!['.'] + rendered_components(s.subrange(1, s.len() as int))
    } else {
        rendered_relative_components(s)
    }
}

/// Translation of the value part of an argument; `None` is the fatal
/// unresolvable-drive case. `arg_exists` is the caller's answer to whether
/// the value names an existing filesystem entry: a value that is not an
/// absolute host path is decomposed only when it does, and passes through
/// unchanged otherwise.
pub open spec fn translated_value(val: Seq<char>, arg_exists: bool) -> Option<Seq<char>> {
    if drive_absolute(val) {
        Some(
            prefix_for_drive(seq![lower_char(val[0])]) + rendered_components(
                val.subrange(2, val.len() as int),
            ),
        )
    } else if verbatim_drive(val) {
        Some(
            prefix_for_drive(seq![lower_char(val[4])]) + rendered_components(
                val.subrange(6, val.len() as int),
            ),
        )
    } else if unc_like(val) {
        None
    } else if arg_exists {
        Some(rendered_relative(val))
    } else {
        Some(val)
    }
}

/// Translation of a whole argument: the option prefix, if any, is kept
/// verbatim and the value is translated.
pub open spec fn translate_unix_spec(arg: Seq<char>, arg_exists: bool) -> Option<Seq<char>> {
    let k = flag_name_len(arg);
    match translated_value(arg.subrange(k, arg.len() as int), arg_exists) {
        Some(t) => Some(arg.subrange(0, k) + t),
        None => None,
    }
}

/// Renders the components of `v` from position `from` on: split at
/// separators, drop empty and `.` components, emit each with a leading `/`.
fn render_components(v: &Vec<char>, from: usize) -> (out: Vec<char>)
    requires
        from <= v@.len(),
    ensures
        out@ == rendered_components(v@.subrange(from as int, v@.len() as int)),
{
    let ghost tail = v@.subrange(from as int, v@.len() as int);
    let mut out: Vec<char> = Vec::new();
    let mut cur: Vec<char> = Vec::new();
    let ghost mut done: Seq<Seq<char>> = Seq::empty();
    let mut i: usize = from;
    proof {
        assert(v@.subrange(from as int, from as int) =~= Seq::<char>::empty());
        assert(split_seps(Seq::<char>::empty()) == seq![Seq::<char>::empty()]);
        assert(seq![Seq::<char>::empty()] =~= Seq::<Seq<char>>::empty().push(
            Seq::<char>::empty(),
        ));
    }
    while i < v.len()
        invariant
            from <= i <= v@.len(),
            split_seps(v@.subrange(from as int, i as int)) == done.push(cur@),
            out@ == join_slash(norm_comps(done)),
        decreases v@.len() - i,
    {
        let c = v[i];
        proof {
            assert(v@.subrange(from as int, i + 1 as int) =~= v@.subrange(
                from as int,
                i as int,
            ).push(v@[i as int]));
            lemma_split_push(v@.subrange(from as int, i as int), v@[i as int]);
            lemma_split_len(v@.subrange(from as int, i as int));
        }
        if sep(c) {
            proof {
                assert(done.push(cur@).push(Seq::<char>::empty()) == split_seps(
                    v@.subrange(from as int, i + 1 as int),
                ));
                lemma_norm_push(done, cur@);
                if keep_comp(cur@) {
                    lemma_join_push(norm_comps(done), cur@);
                }
            }
            let keep = cur.len() > 0 && !(cur.len() == 1 && cur[0] == '.');
            proof {
                if cur.len() == 1 && cur[0] == '.' {
                    assert(cur@ =~= seq!['.']);
                }
                if cur@ == seq!['.'] {
                    assert(cur@.len() == 1 && cur@[0] == '.');
                }
                assert(keep == keep_comp(cur@));
            }
            let ghost cur0 = cur@;
            if keep {
                out.push('/');
                out.append(&mut cur);
                assert(out@ =~= join_slash(norm_comps(done.push(cur0))));
            } else {
                cur.clear();
            }
            proof {
                done = done.push(cur0);
                assert(done.push(cur@) =~= split_seps(v@.subrange(from as int, i + 1 as int)));
            }
        } else {
            cur.push(c);
            proof {
                assert(done.push(cur@) =~= split_seps(v@.subrange(from as int, i + 1 as int)));
            }
        }
        i = i + 1;
    }
    proof {
        assert(v@.subrange(from as int, v@.len() as int) == tail);
        lemma_norm_push(done, cur@);
        if keep_comp(cur@) {
            lemma_join_push(norm_comps(done), cur@);
        }
    }
    let keep = cur.len() > 0 && !(cur.len() == 1 && cur[0] == '.');
    proof {
        if cur.len() == 1 && cur[0] == '.' {
            assert(cur@ =~= seq!['.']);
        }
        if cur@ == seq!['.'] {
            assert(cur@.len() == 1 && cur@[0] == '.');
        }
        assert(keep == keep_comp(cur@));
    }
    if keep {
        out.push('/');
        out.append(&mut cur);
        assert(out@ =~= rendered_components(tail));
    } else {
        assert(out@ =~= rendered_components(tail));
    }
    out
}

/// Renders the components of `v` from position `from` on as a relative
/// path: split at separators, drop empty and `.` components, join with `/`,
/// the first component bare.
fn render_relative_parts(v: &Vec<char>, from: usize) -> (out: Vec<char>)
    requires
        from <= v@.len(),
    ensures
        out@ == rendered_relative_components(v@.subrange(from as int, v@.len() as int)),
{
    let ghost tail = v@.subrange(from as int, v@.len() as int);
    let mut out: Vec<char> = Vec::new();
    let mut cur: Vec<char> = Vec::new();
    let mut any = false;
    let ghost mut done: Seq<Seq<char>> = Seq::empty();
    let mut i: usize = from;
    proof {
        assert(v@.subrange(from as int, from as int) =~= Seq::<char>::empty());
        assert(split_seps(Seq::<char>::empty()) == seq![Seq::<char>::empty()]);
        assert(seq![Seq::<char>::empty()] =~= Seq::<Seq<char>>::empty().push(
            Seq::<char>::empty(),
        ));
    }
    while i < v.len()
        invariant
            from <= i <= v@.len(),
            split_seps(v@.subrange(from as int, i as int)) == done.push(cur@),
            out@ == join_relative(norm_comps(done)),
            any == (norm_comps(done).len() != 0),
        decreases v@.len() - i,
    {
        let c = v[i];
        proof {
            assert(v@.subrange(from as int, i + 1 as int) =~= v@.subrange(
                from as int,
                i as int,
            ).push(v@[i as int]));
            lemma_split_push(v@.subrange(from as int, i as int), v@[i as int]);
            lemma_split_len(v@.subrange(from as int, i as int));
        }
        if sep(c) {
            proof {
                lemma_norm_push(done, cur@);
                if keep_comp(cur@) {
                    lemma_join_relative_push(norm_comps(done), cur@);
                }
            }
            let keep = cur.len() > 0 && !(cur.len() == 1 && cur[0] == '.');
            proof {
                if cur.len() == 1 && cur[0] == '.' {
                    assert(cur@ =~= seq!['.']);
                }
                if cur@ == seq!['.'] {
                    assert(cur@.len() == 1 && cur@[0] == '.');
                }
                assert(keep == keep_comp(cur@));
            }
            let ghost cur0 = cur@;
            if keep {
                if any {
                    out.push('/');
                }
                out.append(&mut cur);
                any = true;
                assert(out@ =~= join_relative(norm_comps(done.push(cur0))));
            } else {
                cur.clear();
            }
            proof {
                done = done.push(cur0);
                assert(done.push(cur@) =~= split_seps(v@.subrange(from as int, i + 1 as int)));
            }
        } else {
            cur.push(c);
            proof {
                assert(done.push(cur@) =~= split_seps(v@.subrange(from as int, i + 1 as int)));
            }
        }
        i = i + 1;
    }
    proof {
        assert(v@.subrange(from as int, v@.len() as int) == tail);
        lemma_norm_push(done, cur@);
        if keep_comp(cur@) {
            lemma_join_relative_push(norm_comps(done), cur@);
        }
    }
    let keep = cur.len() > 0 && !(cur.len() == 1 && cur[0] == '.');
    proof {
        if cur.len() == 1 && cur[0] == '.' {
            assert(cur@ =~= seq!['.']);
        }
        if cur@ == seq!['.'] {
            assert(cur@.len() == 1 && cur@[0] == '.');
        }
        assert(keep == keep_comp(cur@));
    }
    if keep {
        if any {
            out.push('/');
        }
        out.append(&mut cur);
        assert(out@ =~= rendered_relative_components(tail));
    } else {
        assert(out@ =~= rendered_relative_components(tail));
    }
    out
}

/// Measures a `--name=` option prefix, `=` included; zero when there is
/// none.
fn flag_prefix_len(v: &Vec<char>) -> (k: usize)
    ensures
        k == flag_name_len(v@),
        k <= v@.len(),
{
    proof {
        lemma_first_eq(v@);
    }
    let mut k: usize = 0;
    if v.len() >= 2 && v[0] == '-' && v[1] == '-' {
        let mut i: usize = 0;
        while i < v.len() && v[i] != '='
            invariant
                i <= v@.len(),
                forall|j: int| 0 <= j < i ==> v@[j] != '=',
            decreases v@.len() - i,
        {
            i = i + 1;
        }
        proof {
            if i < v@.len() {
                assert(first_eq(v@) == i);
            } else {
                assert(first_eq(v@) == v@.len());
            }
        }
        if i < v.len() {
            k = i + 1;
        }
    }
    assert(k == flag_name_len(v@));
    k
}

/// The value part of an argument: what follows a `--name=` option prefix,
/// or the whole argument when there is none. The filesystem question that
/// gates relative translation is asked of this value, never of the whole
/// argument.
pub fn flag_value(argument: &str) -> (r: String)
    ensures
        r@ == argument@.subrange(flag_name_len(argument@), argument@.len() as int),
{
    let v = str_to_chars(argument);
    let k = flag_prefix_len(&v);
    let val = copy_range(&v, k, v.len());
    chars_to_string(&val)
}

/// Translates one argument to the environment's convention, or reports that
/// its drive designation cannot be resolved to a single letter, in which case
/// the whole invocation must be abandoned rather than mis-translated.
/// `arg_exists` is the caller's answer to whether the argument's value (see
/// `flag_value`) names an existing filesystem entry; only relative values
/// depend on it.
#[verifier::rlimit(100)]
pub fn try_translate_path_to_unix(argument: &str, arg_exists: bool) -> (r: Result<
    String,
    TranslateError,
>)
    ensures
        match r {
            Ok(s) => translate_unix_spec(argument@, arg_exists) == Some(s@),
            Err(e) => translate_unix_spec(argument@, arg_exists) is None && e
                == TranslateError::UnresolvableDrive,
        },
{
    let v = str_to_chars(argument);
    let k = flag_prefix_len(&v);
    let ghost val_view = v@.subrange(k as int, v@.len() as int);
    let n = v.len();
    // Classify the value part by direct inspection; `val_view[j]` is
    // `v[k + j]`.
    let is_abs = n - k >= 3 && ascii_letter(v[k]) && v[k + 1] == ':' && sep(v[k + 2]);
    let is_verbatim = n - k >= 6 && v[k] == '\\' && v[k + 1] == '\\' && v[k + 2] == '?' && v[k + 3]
        == '\\' && ascii_letter(v[k + 4]) && v[k + 5] == ':' && (n - k == 6 || sep(v[k + 6]));
    assert(is_abs == drive_absolute(val_view));
    assert(is_verbatim == verbatim_drive(val_view));
    if is_abs || is_verbatim {
        let drive_pos = if is_abs { k } else { k + 4 };
        let tail_pos = if is_abs { k + 2 } else { k + 6 };
        let mut out = copy_range(&v, 0, k);
        out.push('/');
        out.push('m');
        out.push('n');
        out.push('t');
        out.push('/');
        out.push(to_lower(v[drive_pos]));
        let mut tail = render_components(&v, tail_pos);
        proof {
            assert(v@.subrange(tail_pos as int, v@.len() as int) =~= val_view.subrange(
                tail_pos - k,
                val_view.len() as int,
            ));
            reveal_strlit("/mnt/");
            assert(prefix_for_drive(seq![lower_char(val_view[drive_pos - k])]) =~= seq![
                '/',
                'm',
                'n',
                't',
                '/',
                lower_char(val_view[drive_pos - k]),
            ]);
        }
        out.append(&mut tail);
        assert(out@ =~= v@.subrange(0, k as int) + prefix_for_drive(
            seq![lower_char(val_view[drive_pos - k])],
        ) + rendered_components(val_view.subrange(tail_pos - k, val_view.len() as int)));
        return Ok(chars_to_string(&out));
    }
    let is_unc = n - k >= 2 && sep(v[k]) && sep(v[k + 1]);
    assert(is_unc == (val_view.len() >= 2 && is_sep(val_view[0]) && is_sep(val_view[1])));
    if is_unc {
        return Err(TranslateError::UnresolvableDrive);
    }
    if arg_exists {
        // A relative value that names an existing entry is decomposed; a
        // leading `.` component is kept.
        let is_dot = n - k >= 1 && v[k] == '.' && (n - k == 1 || sep(v[k + 1]));
        assert(is_dot == dot_anchored(val_view));
        let mut out = copy_range(&v, 0, k);
        if is_dot {
            out.push('.');
            let mut tail = render_components(&v, k + 1);
            proof {
                assert(v@.subrange(k + 1 as int, v@.len() as int) =~= val_view.subrange(
                    1,
                    val_view.len() as int,
                ));
            }
            out.append(&mut tail);
            assert(out@ =~= v@.subrange(0, k as int) + (seq!['.'] + rendered_components(
                val_view.subrange(1, val_view.len() as int),
            )));
        } else {
            let mut tail = render_relative_parts(&v, k);
            proof {
                assert(v@.subrange(k as int, v@.len() as int) == val_view);
            }
            out.append(&mut tail);
            assert(out@ =~= v@.subrange(0, k as int) + rendered_relative_components(val_view));
        }
        return Ok(chars_to_string(&out));
    }
    // Neither an absolute host path nor an existing entry: the argument
    // passes through unchanged.
    assert(v@.subrange(0, k as int) + val_view =~= v@);
    Ok(argument.to_owned())
}

/// Translates one argument, assuming its drive designation is resolvable.
/// Callers that cannot assume this use `try_translate_path_to_unix` and
/// abandon the invocation on an error.
pub fn translate_path_to_unix(argument: String, arg_exists: bool) -> (r: String)
    requires
        translate_unix_spec(argument@, arg_exists) is Some,
    ensures
        Some(r@) == translate_unix_spec(argument@, arg_exists),
{
    match try_translate_path_to_unix(argument.as_str(), arg_exists) {
        Ok(s) => s,
        Err(_) => vstd::pervasive::unreached(),
    }
}

} // verus!
