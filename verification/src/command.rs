//! Command assembly and the per-invocation policies: invocation mode,
//! rendered command line, stdin wiring, output rewriting, and exit-code
//! propagation. The caller performs the actual process and environment work
//! and feeds plain values in; everything decided here is verified.

use vstd::prelude::*;
use vstd::string::*;
use crate::chars::{str_to_chars, chars_to_string, str_eq};
use crate::escape::{escape_spec, shell_escape};
use crate::outbound::{translate_unix_spec, try_translate_path_to_unix, TranslateError};

verus! {

/// How the child command is handed to the environment: through an
/// interactive login shell, or exec'd directly as an argv vector.
#[derive(Clone, Copy, Debug, PartialEq, Eq, Structural)]
pub enum InvocationMode {
    Interactive,
    Direct,
}

/// How the child's stdin is wired.
#[derive(Clone, Copy, Debug, PartialEq, Eq, Structural)]
pub enum StdinPolicy {
    Null,
    Inherited,
}

/// Mode selection: Interactive unless the invocation is itself happening
/// inside a non-interactive relay, signalled by a marker variable that is
/// present and also named in the relay's pass-through list.
pub fn select_mode(marker_present: bool, marker_in_list: bool) -> (m: InvocationMode)
    ensures
        m == (if marker_present && marker_in_list {
            InvocationMode::Direct
        } else {
            InvocationMode::Interactive
        }),
{
    if marker_present && marker_in_list {
        InvocationMode::Direct
    } else {
        InvocationMode::Interactive
    }
}

/// Every argument translated outbound, in order, each with its own
/// filesystem-existence answer; `None` as soon as one has an unresolvable
/// drive.
pub open spec fn translated_args(args: Seq<Seq<char>>, ex: Seq<bool>) -> Option<Seq<Seq<char>>>
    decreases args.len(),
{
    if args.len() == 0 {
        Some(Seq::<Seq<char>>::empty())
    } else {
        match translated_args(args.drop_last(), ex.drop_last()) {
            Some(ts) => match translate_unix_spec(args.last(), ex.last()) {
                Some(t) => Some(ts.push(t)),
                None => None,
            },
            None => None,
        }
    }
}

/// Tokens joined with single spaces.
pub open spec fn join_space(parts: Seq<Seq<char>>) -> Seq<char>
    decreases parts.len(),
{
    if parts.len() == 0 {
        Seq::<char>::empty()
    } else if parts.len() == 1 {
        parts[0]
    } else {
        join_space(parts.drop_last()) + seq![' '] + parts.last()
    }
}

/// The single shell-quoted command line: the program name, then every
/// translated argument escaped, joined with spaces; when an init file is
/// given, a `source` of its translated path is prepended.
pub open spec fn rendered_interactive(
    program: Seq<char>,
    targs: Seq<Seq<char>>,
    init_t: Option<Seq<char>>,
) -> Seq<char> {
    let joined = join_space(seq![program] + targs.map_values(|t: Seq<char>| escape_spec(t)));
    match init_t {
        Some(ip) => "source "@ + ip + seq![';'] + joined,
        None => joined,
    }
}

/// A rendered command line asks for a capability probe when it ends with the
/// version-probe token.
pub open spec fn ends_with_version(line: Seq<char>) -> bool {
    line.len() >= 9 && line.subrange(line.len() - 9, line.len() as int) == "--version"@
}

/// A fully assembled child command: the argv vector handed to the
/// environment launcher, the rendered line it came from, and the stdin
/// wiring it calls for.
#[derive(Debug)]
pub struct BuiltCommand {
    pub argv: Vec<String>,
    pub rendered: String,
    pub stdin: StdinPolicy,
}

/// The argv vector for a rendered command: an interactive login-shell
/// invocation carrying the whole line as its sole argument, or the plain
/// tokens themselves.
pub open spec fn spec_argv(
    program: Seq<char>,
    targs: Seq<Seq<char>>,
    rendered: Seq<char>,
    mode: InvocationMode,
) -> Seq<Seq<char>> {
    match mode {
        InvocationMode::Interactive => seq!["bash"@, "-ic"@, rendered],
        InvocationMode::Direct => seq![program] + targs,
    }
}

/// The rendered line for either mode: shell-quoted for Interactive, the
/// plain tokens space-joined for Direct (used only for the stdin decision;
/// in Direct mode the tokens are passed individually and the init file is
/// not sourced, there being no shell to source it).
pub open spec fn spec_rendered(
    program: Seq<char>,
    targs: Seq<Seq<char>>,
    init_t: Option<Seq<char>>,
    mode: InvocationMode,
) -> Seq<char> {
    match mode {
        InvocationMode::Interactive => rendered_interactive(program, targs, init_t),
        InvocationMode::Direct => join_space(seq![program] + targs),
    }
}

/// The init file's translated path, when one is present and translates;
/// `None` marks the fatal case. The init file is only handed over when it
/// exists, so its existence answer is fixed to true.
pub open spec fn translated_init(init: Option<Seq<char>>) -> Option<Option<Seq<char>>> {
    match init {
        Some(p) => match translate_unix_spec(p, true) {
            Some(t) => Some(Some(t)),
            None => None,
        },
        None => Some(None),
    }
}

pub open spec fn init_view(init: Option<&String>) -> Option<Seq<char>> {
    match init {
        Some(p) => Some(p@),
        None => None,
    }
}

/// Assembles the child command: translates every argument outbound, renders
/// the line for the chosen mode, and derives the stdin policy. Fails, before
/// anything is launched, as soon as any path's drive cannot be resolved.
/// `args_exist` answers, argument by argument, whether the argument's value
/// names an existing filesystem entry (see `flag_value`).
pub fn build_command(
    program: &str,
    args: &Vec<String>,
    args_exist: &Vec<bool>,
    init_file: Option<&String>,
    mode: InvocationMode,
) -> (r: Result<BuiltCommand, TranslateError>)
    requires
        args@.len() == args_exist@.len(),
    ensures
        match r {
            Ok(b) => {
                &&& translated_args(args.deep_view(), args_exist@) is Some
                &&& {
                    let targs = translated_args(args.deep_view(), args_exist@)->Some_0;
                    let init_t = if mode == InvocationMode::Interactive {
                        translated_init(init_view(init_file))
                    } else {
                        Some(None)
                    };
                    &&& init_t is Some
                    &&& b.rendered@ == spec_rendered(program@, targs, init_t->Some_0, mode)
                    &&& b.argv.deep_view() == spec_argv(program@, targs, b.rendered@, mode)
                    &&& b.stdin == (if ends_with_version(b.rendered@) {
                        StdinPolicy::Null
                    } else {
                        StdinPolicy::Inherited
                    })
                }
            },
            Err(e) => {
                &&& e == TranslateError::UnresolvableDrive
                &&& (translated_args(args.deep_view(), args_exist@) is None || (mode
                    == InvocationMode::Interactive && translated_init(init_view(init_file))
                    is None))
            },
        },
{
    let mut targs: Vec<String> = Vec::new();
    let mut i: usize = 0;
    proof {
        assert(args.deep_view().subrange(0, 0) =~= Seq::<Seq<char>>::empty());
        assert(args_exist@.subrange(0, 0) =~= Seq::<bool>::empty());
    }
    while i < args.len()
        invariant
            i <= args@.len(),
            args.deep_view().len() == args@.len(),
            args@.len() == args_exist@.len(),
            translated_args(
                args.deep_view().subrange(0, i as int),
                args_exist@.subrange(0, i as int),
            ) == Some(targs.deep_view()),
        decreases args@.len() - i,
    {
        proof {
            assert(args.deep_view()[i as int] == args@[i as int]@);
        }
        match try_translate_path_to_unix(args[i].as_str(), args_exist[i]) {
            Ok(t) => {
                targs.push(t);
                proof {
                    let pre = args.deep_view().subrange(0, i as int);
                    let pre_ex = args_exist@.subrange(0, i as int);
                    let now = args.deep_view().subrange(0, i + 1 as int);
                    let now_ex = args_exist@.subrange(0, i + 1 as int);
                    assert(now.drop_last() =~= pre);
                    assert(now_ex.drop_last() =~= pre_ex);
                    assert(now.last() == args.deep_view()[i as int]);
                    assert(now_ex.last() == args_exist@[i as int]);
                    assert(targs.deep_view() =~= translated_args(pre, pre_ex)->Some_0.push(
                        translate_unix_spec(
                            args.deep_view()[i as int],
                            args_exist@[i as int],
                        )->Some_0,
                    ));
                }
            },
            Err(e) => {
                proof {
                    lemma_translated_args_prefix_fail(args.deep_view(), args_exist@, i as int);
                }
                return Err(e);
            },
        }
        i = i + 1;
    }
    proof {
        assert(args.deep_view().subrange(0, args.deep_view().len() as int) =~= args.deep_view());
        assert(args_exist@.subrange(0, args_exist@.len() as int) =~= args_exist@);
    }
    let rendered_chars: Vec<char>;
    let mut argv: Vec<String> = Vec::new();
    match mode {
        InvocationMode::Interactive => {
            // Join the program name and each escaped argument with spaces.
            let mut line = str_to_chars(program);
            proof {
                assert(seq![program@] + targs.deep_view().map_values(
                    |t: Seq<char>| escape_spec(t),
                ).subrange(0, 0) =~= seq![program@]);
                assert(join_space(seq![program@]) == program@);
            }
            let mut j: usize = 0;
            while j < targs.len()
                invariant
                    j <= targs@.len(),
                    targs.deep_view().len() == targs@.len(),
                    line@ == join_space(
                        seq![program@] + targs.deep_view().map_values(
                            |t: Seq<char>| escape_spec(t),
                        ).subrange(0, j as int),
                    ),
                decreases targs@.len() - j,
            {
                let e = shell_escape(targs[j].clone());
                line.push(' ');
                let mut echars = str_to_chars(e.as_str());
                line.append(&mut echars);
                proof {
                    let em = targs.deep_view().map_values(|t: Seq<char>| escape_spec(t));
                    let pre = seq![program@] + em.subrange(0, j as int);
                    let now = seq![program@] + em.subrange(0, j + 1 as int);
                    assert(targs.deep_view()[j as int] == targs@[j as int]@);
                    assert(now.drop_last() =~= pre);
                    assert(now.last() == em[j as int]);
                    assert(now.len() >= 2);
                    assert(line@ =~= join_space(pre) + seq![' '] + em[j as int]);
                }
                j = j + 1;
            }
            proof {
                let em = targs.deep_view().map_values(|t: Seq<char>| escape_spec(t));
                assert(em.subrange(0, em.len() as int) =~= em);
            }
            match init_file {
                Some(p) => {
                    match try_translate_path_to_unix(p.as_str(), true) {
                        Ok(ip) => {
                            let mut full = str_to_chars("source ");
                            let mut ipc = str_to_chars(ip.as_str());
                            full.append(&mut ipc);
                            full.push(';');
                            let mut rest = line;
                            full.append(&mut rest);
                            rendered_chars = full;
                            assert(rendered_chars@ =~= rendered_interactive(
                                program@,
                                targs.deep_view(),
                                translated_init(init_view(init_file))->Some_0,
                            ));
                        },
                        Err(e) => {
                            return Err(e);
                        },
                    }
                },
                None => {
                    rendered_chars = line;
                },
            }
            let rendered = chars_to_string(&rendered_chars);
            argv.push(String::from_str("bash"));
            argv.push(String::from_str("-ic"));
            argv.push(rendered.clone());
            proof {
                assert(argv.deep_view() =~= seq!["bash"@, "-ic"@, rendered@]);
            }
            let stdin = stdin_for(&rendered_chars);
            return Ok(BuiltCommand { argv, rendered, stdin });
        },
        InvocationMode::Direct => {
            let mut line = str_to_chars(program);
            proof {
                assert((seq![program@] + targs.deep_view().subrange(0, 0)) =~= seq![program@]);
                assert(join_space(seq![program@]) == program@);
            }
            argv.push(program.to_owned());
            let mut j: usize = 0;
            while j < targs.len()
                invariant
                    j <= targs@.len(),
                    targs.deep_view().len() == targs@.len(),
                    line@ == join_space(seq![program@] + targs.deep_view().subrange(0, j as int)),
                    argv.deep_view() == seq![program@] + targs.deep_view().subrange(0, j as int),
                decreases targs@.len() - j,
            {
                line.push(' ');
                let mut tchars = str_to_chars(targs[j].as_str());
                line.append(&mut tchars);
                let ghost argv0 = argv.deep_view();
                let t = targs[j].clone();
                assert(t@ == targs.deep_view()[j as int]) by {
                    assert(targs.deep_view()[j as int] == targs@[j as int]@);
                }
                argv.push(t);
                proof {
                    let pre = seq![program@] + targs.deep_view().subrange(0, j as int);
                    let now = seq![program@] + targs.deep_view().subrange(0, j + 1 as int);
                    assert(targs.deep_view()[j as int] == targs@[j as int]@);
                    assert(now.drop_last() =~= pre);
                    assert(now.last() == targs.deep_view()[j as int]);
                    assert(now.len() >= 2);
                    assert(line@ =~= join_space(pre) + seq![' '] + targs.deep_view()[j as int]);
                    assert forall|m: int| 0 <= m < argv@.len() implies argv.deep_view()[m]
                        == now[m] by {
                        if m < argv@.len() - 1 {
                            assert(argv.deep_view()[m] == argv0[m]);
                        } else {
                            assert(argv.deep_view()[m] == t@);
                        }
                    }
                    assert(argv.deep_view() =~= now);
                }
                j = j + 1;
            }
            proof {
                assert(seq![program@] + targs.deep_view().subrange(
                    0,
                    targs.deep_view().len() as int,
                ) =~= seq![program@] + targs.deep_view());
            }
            let rendered = chars_to_string(&line);
            let stdin = stdin_for(&line);
            return Ok(BuiltCommand { argv, rendered, stdin });
        },
    }
}

/// Stdin is cut off exactly when the rendered line ends with the
/// version-probe token, the workaround for a host tool that hangs while
/// probing version support; every other command inherits the host's stdin.
fn stdin_for(line: &Vec<char>) -> (r: StdinPolicy)
    ensures
        r == (if ends_with_version(line@) {
            StdinPolicy::Null
        } else {
            StdinPolicy::Inherited
        }),
{
    let probe = ['-', '-', 'v', 'e', 'r', 's', 'i', 'o', 'n'];
    if line.len() < 9 {
        proof {
            reveal_strlit("--version");
        }
        return StdinPolicy::Inherited;
    }
    let base = line.len() - 9;
    let mut k: usize = 0;
    while k < 9
        invariant
            k <= 9,
            line@.len() >= 9,
            line@.len() <= usize::MAX,
            base == line@.len() - 9,
            probe@ =~= seq!['-', '-', 'v', 'e', 'r', 's', 'i', 'o', 'n'],
            forall|m: int| 0 <= m < k ==> line@[base + m] == probe@[m],
        decreases 9 - k,
    {
        if line[base + k] != probe[k] {
            proof {
                reveal_strlit("--version");
                assert(line@.subrange(line@.len() - 9, line@.len() as int)[k as int] == line@[base
                    + k]);
                assert("--version"@[k as int] == probe@[k as int]);
            }
            return StdinPolicy::Inherited;
        }
        k = k + 1;
    }
    proof {
        reveal_strlit("--version");
        assert(line@.subrange(line@.len() - 9, line@.len() as int) =~= "--version"@);
    }
    StdinPolicy::Null
}

proof fn lemma_translated_args_prefix_fail(args: Seq<Seq<char>>, ex: Seq<bool>, i: int)
    requires
        0 <= i < args.len(),
        args.len() == ex.len(),
        translate_unix_spec(args[i], ex[i]) is None,
    ensures
        translated_args(args, ex) is None,
    decreases args.len(),
{
    if args.len() > 0 {
        if i == args.len() - 1 {
            assert(args.last() == args[i]);
            assert(ex.last() == ex[i]);
        } else {
            lemma_translated_args_prefix_fail(args.drop_last(), ex.drop_last(), i);
        }
    }
}

/// Output is captured and rewritten exactly for the subcommands known to
/// emit environment paths; every other subcommand's output streams through
/// untouched. The decision depends on the subcommand name alone.
pub fn should_translate_output(subcommand: &str) -> (r: bool)
    ensures
        r == (subcommand@ == "rev-parse"@ || subcommand@ == "remote"@),
{
    str_eq(subcommand, "rev-parse") || str_eq(subcommand, "remote")
}

/// The exit code the host must report: the child's own code when one exists;
/// when the child was terminated without a code (for example by a signal),
/// the distinguished nonzero sentinel 255, never a silent success.
pub fn exit_code_for(code: Option<i32>) -> (r: i32)
    ensures
        match code {
            Some(c) => r == c,
            None => r == 255,
        },
{
    match code {
        Some(c) => c,
        None => 255,
    }
}

} // verus!
