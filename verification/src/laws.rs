//! The laws that tie the two translators together: a host path built from
//! legal components survives the outbound translation followed by the
//! inbound rewrite unchanged, and the inbound rewrite treats the lines of a
//! stream independently.

use vstd::prelude::*;
use crate::chars::{is_sep, lower_char};
use crate::components::{
    split_seps, keep_comp, norm_comps, join_slash, rendered_components, lemma_split_len,
    lemma_split_push,
};
use crate::inbound::{
    is_space_byte, is_letter_byte, lower_letter_byte, match_at, rewrite_from, translate_win_spec,
};
use crate::outbound::{drive_absolute, has_flag, translate_unix_spec, translated_value};
use crate::drive::prefix_for_drive;

verus! {

/// The whitespace characters that end an inbound path run, as characters.
pub open spec fn is_space_char(c: char) -> bool {
    c == ' ' || c == '\t' || c == '\n' || c == '\x0B' || c == '\x0C' || c == '\r'
}

/// A character legal inside a path component of either convention: ASCII,
/// not a separator, not whitespace.
pub open spec fn legal_path_char(c: char) -> bool {
    (c as u32) < 128 && !is_sep(c) && !is_space_char(c)
}

/// A component legal in both conventions: non-empty, not the bare
/// current-directory marker, every character legal.
pub open spec fn legal_comp(c: Seq<char>) -> bool {
    c.len() > 0 && c != seq!['.'] && (forall|k: int| 0 <= k < c.len() ==> legal_path_char(c[k]))
}

/// The byte rendering of an ASCII character sequence.
pub open spec fn ascii_seq(s: Seq<char>) -> Seq<u8> {
    Seq::new(s.len(), |i: int| s[i] as u8)
}

proof fn lemma_join_first(cs: Seq<Seq<char>>)
    requires
        cs.len() >= 1,
    ensures
        join_slash(cs).len() >= 1,
        join_slash(cs)[0] == '/',
    decreases cs.len(),
{
    if cs.len() > 1 {
        lemma_join_first(cs.drop_last());
    } else {
        assert(cs.drop_last() =~= Seq::<Seq<char>>::empty());
        assert(join_slash(Seq::<Seq<char>>::empty()) == Seq::<char>::empty());
        assert(join_slash(cs) =~= Seq::<char>::empty() + seq!['/'] + cs.last());
    }
}

proof fn lemma_join_chars(cs: Seq<Seq<char>>)
    requires
        forall|i: int| 0 <= i < cs.len() ==> legal_comp(cs[i]),
    ensures
        forall|k: int|
            0 <= k < join_slash(cs).len() ==> (join_slash(cs)[k] == '/' || legal_path_char(
                join_slash(cs)[k],
            )),
    decreases cs.len(),
{
    if cs.len() > 0 {
        lemma_join_chars(cs.drop_last());
        assert(forall|i: int| 0 <= i < cs.drop_last().len() ==> legal_comp(cs.drop_last()[i]));
        let last = cs.last();
        assert(legal_comp(last));
        assert forall|k: int| 0 <= k < join_slash(cs).len() implies (join_slash(cs)[k] == '/'
            || legal_path_char(join_slash(cs)[k])) by {
            let pre = join_slash(cs.drop_last());
            if k < pre.len() {
                assert(join_slash(cs)[k] == pre[k]);
            } else if k == pre.len() {
                assert(join_slash(cs)[k] == '/');
            } else {
                assert(join_slash(cs)[k] == last[k - pre.len() - 1]);
            }
        }
    }
}

proof fn lemma_split_append_nosep(a: Seq<char>, b: Seq<char>)
    requires
        forall|k: int| 0 <= k < b.len() ==> !is_sep(b[k]),
    ensures
        split_seps(a + b) == split_seps(a).drop_last().push(split_seps(a).last() + b),
    decreases b.len(),
{
    lemma_split_len(a);
    if b.len() == 0 {
        assert(a + b =~= a);
        assert(split_seps(a).last() + b =~= split_seps(a).last());
        assert(split_seps(a).drop_last().push(split_seps(a).last()) =~= split_seps(a));
    } else {
        let bd = b.drop_last();
        let c = b.last();
        assert(forall|k: int| 0 <= k < bd.len() ==> bd[k] == b[k] && !is_sep(bd[k]));
        lemma_split_append_nosep(a, bd);
        assert(a + b =~= (a + bd).push(c));
        lemma_split_push(a + bd, c);
        let sa = split_seps(a);
        let sab = split_seps(a + bd);
        assert(sab == sa.drop_last().push(sa.last() + bd));
        assert(sab.drop_last() =~= sa.drop_last());
        assert(sab.last() == sa.last() + bd);
        assert((sa.last() + bd).push(c) =~= sa.last() + b);
        assert(split_seps(a + b) =~= sa.drop_last().push(sa.last() + b));
    }
}

proof fn lemma_split_join(cs: Seq<Seq<char>>)
    requires
        cs.len() >= 1,
        forall|i: int, k: int|
            0 <= i < cs.len() && 0 <= k < cs[i].len() ==> !is_sep(#[trigger] cs[i][k]),
    ensures
        split_seps(join_slash(cs)) == seq![Seq::<char>::empty()] + cs,
    decreases cs.len(),
{
    let dl = cs.drop_last();
    let last = cs.last();
    let j = join_slash(dl);
    assert(join_slash(cs) == j + seq!['/'] + last);
    assert(j + seq!['/'] =~= j.push('/'));
    lemma_split_push(j, '/');
    let sj = split_seps(j);
    lemma_split_len(j);
    assert(split_seps(j.push('/')) == sj.push(Seq::<char>::empty()));
    assert((j + seq!['/']) + last =~= join_slash(cs));
    assert forall|k: int| 0 <= k < last.len() implies !is_sep(last[k]) by {
        assert(!is_sep(cs[cs.len() - 1][k]));
    }
    lemma_split_append_nosep(j + seq!['/'], last);
    let sjs = split_seps(j + seq!['/']);
    assert(sjs == sj.push(Seq::<char>::empty()));
    assert(sjs.drop_last() =~= sj);
    assert(sjs.last() == Seq::<char>::empty());
    assert(Seq::<char>::empty() + last =~= last);
    assert(split_seps(join_slash(cs)) == sj.push(last));
    if cs.len() == 1 {
        assert(dl =~= Seq::<Seq<char>>::empty());
        assert(j == Seq::<char>::empty());
        assert(sj =~= seq![Seq::<char>::empty()]);
        assert(sj.push(last) =~= seq![Seq::<char>::empty()] + cs);
    } else {
        lemma_split_join(dl);
        assert(sj == seq![Seq::<char>::empty()] + dl);
        assert((seq![Seq::<char>::empty()] + dl).push(last) =~= seq![Seq::<char>::empty()] + cs);
    }
}

proof fn lemma_nonspace_byte(c: char)
    requires
        (c as u32) < 128,
        !is_space_char(c),
    ensures
        !is_space_byte(c as u8),
{
}

proof fn lemma_norm_skip_first_empty(cs: Seq<Seq<char>>)
    ensures
        norm_comps(seq![Seq::<char>::empty()] + cs) == norm_comps(cs),
    decreases cs.len(),
{
    let full = seq![Seq::<char>::empty()] + cs;
    if cs.len() == 0 {
        assert(full =~= seq![Seq::<char>::empty()]);
        assert(full.drop_last() =~= Seq::<Seq<char>>::empty());
        assert(!keep_comp(full.last()));
        assert(norm_comps(Seq::<Seq<char>>::empty()) == Seq::<Seq<char>>::empty());
        assert(cs =~= Seq::<Seq<char>>::empty());
    } else {
        lemma_norm_skip_first_empty(cs.drop_last());
        assert(full.drop_last() =~= seq![Seq::<char>::empty()] + cs.drop_last());
        assert(full.last() == cs.last());
    }
}

proof fn lemma_norm_all_kept(cs: Seq<Seq<char>>)
    requires
        forall|i: int| 0 <= i < cs.len() ==> keep_comp(cs[i]),
    ensures
        norm_comps(cs) == cs,
    decreases cs.len(),
{
    if cs.len() > 0 {
        assert(keep_comp(cs.last()));
        lemma_norm_all_kept(cs.drop_last());
        assert(norm_comps(cs) =~= cs);
    }
}

proof fn lemma_run_copies(s: Seq<u8>, j: int)
    requires
        0 <= j <= s.len(),
        forall|k: int| j <= k < s.len() ==> !is_space_byte(s[k]),
    ensures
        rewrite_from(s, j, true) == s.subrange(j, s.len() as int),
    decreases s.len() - j,
{
    if j >= s.len() {
        assert(s.subrange(j, s.len() as int) =~= Seq::<u8>::empty());
    } else {
        lemma_run_copies(s, j + 1);
        assert(rewrite_from(s, j, true) =~= s.subrange(j, s.len() as int));
    }
}

/// The round trip: a host absolute path built from a lowercase drive letter
/// and legal components translates outbound to the mount form and, rewritten
/// inbound as bytes, comes back exactly as it was.
pub proof fn lemma_round_trip(d: char, comps: Seq<Seq<char>>, arg_exists: bool)
    requires
        'a' <= d && d <= 'z',
        comps.len() >= 1,
        forall|i: int| 0 <= i < comps.len() ==> legal_comp(comps[i]),
    ensures
        translate_unix_spec(seq![d, ':'] + join_slash(comps), arg_exists) == Some(
            seq!['/', 'm', 'n', 't', '/', d] + join_slash(comps),
        ),
        translate_win_spec(ascii_seq(seq!['/', 'm', 'n', 't', '/', d] + join_slash(comps)))
            == ascii_seq(seq![d, ':'] + join_slash(comps)),
{
    let jn = join_slash(comps);
    let p = seq![d, ':'] + jn;
    lemma_join_first(comps);
    lemma_join_chars(comps);
    // Outbound: the path is drive-absolute and its components survive
    // normalization unchanged.
    assert(p[0] == d && p[1] == ':' && p[2] == jn[0]);
    assert(!has_flag(p));
    assert(drive_absolute(p));
    assert(p.subrange(0, 0) =~= Seq::<char>::empty());
    let tail = p.subrange(2, p.len() as int);
    assert(tail =~= jn);
    assert forall|i: int, k: int|
        0 <= i < comps.len() && 0 <= k < comps[i].len() implies !is_sep(
        #[trigger] comps[i][k],
    ) by {
        assert(legal_comp(comps[i]));
        assert(legal_path_char(comps[i][k]));
    }
    lemma_split_join(comps);
    lemma_norm_skip_first_empty(comps);
    assert(forall|i: int| 0 <= i < comps.len() ==> keep_comp(comps[i]));
    lemma_norm_all_kept(comps);
    assert(rendered_components(tail) == jn);
    assert(lower_char(d) == d);
    let q = seq!['/', 'm', 'n', 't', '/', d] + jn;
    reveal_strlit("/mnt/");
    assert(prefix_for_drive(seq![d]) =~= seq!['/', 'm', 'n', 't', '/', d]);
    assert(translated_value(p, arg_exists) == Some(
        prefix_for_drive(seq![lower_char(d)]) + rendered_components(tail),
    ));
    assert(prefix_for_drive(seq![d]) + jn =~= q);
    assert(Seq::<char>::empty() + q =~= q);
    assert(p.subrange(0, p.len() as int) =~= p);
    assert(translate_unix_spec(p, arg_exists) == Some(q));
    // Inbound: the whole mount form is one match whose run reaches the end,
    // and the rewrite emits the original path.
    let u = ascii_seq(q);
    assert(u.len() == q.len() && q.len() == 6 + jn.len());
    assert(match_at(u, 0)) by {
        assert(u[0] == 47 && u[1] == 109 && u[2] == 110 && u[3] == 116 && u[4] == 47);
        assert(97 <= u[5] <= 122);
        assert(q[6] == jn[0] && jn[0] == '/');
        assert(u[6] == 47);
    }
    assert forall|k: int| 6 <= k < u.len() implies !is_space_byte(u[k]) by {
        let c = q[k];
        assert(c == jn[k - 6]);
        assert(u[k] == (c as u8));
        if c == '/' {
            assert(u[k] == 47);
        } else {
            assert(legal_path_char(c));
            lemma_nonspace_byte(c);
        }
    }
    lemma_run_copies(u, 6);
    assert(rewrite_from(u, 0, false) == seq![lower_letter_byte(u[5]), 58] + u.subrange(
        6,
        u.len() as int,
    ));
    assert(seq![lower_letter_byte(u[5]), 58] + u.subrange(6, u.len() as int) =~= ascii_seq(p)) by {
        assert(u[5] == (d as u8));
        assert(97 <= u[5] <= 122);
        assert(lower_letter_byte(u[5]) == u[5]);
        assert(forall|k: int| 0 <= k < jn.len() ==> u.subrange(6, u.len() as int)[k] == (
        jn[k] as u8));
        assert(forall|k: int| 0 <= k < p.len() ==> ascii_seq(p)[k] == (p[k] as u8));
        assert((':' as u8) == 58);
    }
}

/// Translating an already environment-shaped argument outbound is a no-op:
/// a string that begins with the mount root has no drive designation and no
/// UNC-style prefix, and it names an environment file, not a host one, so
/// its host-side existence answer is false and it passes through unchanged.
pub proof fn lemma_outbound_ignores_env_paths(s: Seq<char>)
    requires
        s.len() >= 5,
        s.subrange(0, 5) == "/mnt/"@,
    ensures
        translate_unix_spec(s, false) == Some(s),
{
    reveal_strlit("/mnt/");
    assert(s[0] == s.subrange(0, 5)[0] && s[1] == s.subrange(0, 5)[1]);
    assert(s[0] == '/' && s[1] == 'm');
    assert(!has_flag(s));
    assert(s.subrange(0, 0) =~= Seq::<char>::empty());
    assert(s.subrange(0, s.len() as int) =~= s);
    assert(Seq::<char>::empty() + s =~= s);
}

proof fn lemma_rewrite_suffix(s: Seq<u8>, d: int, k: int, r: bool)
    requires
        0 <= d <= s.len(),
        0 <= k,
    ensures
        rewrite_from(s, d + k, r) == rewrite_from(s.subrange(d, s.len() as int), k, r),
    decreases s.len() - d - k,
{
    let t = s.subrange(d, s.len() as int);
    if d + k >= s.len() {
        assert(k >= t.len());
    } else {
        assert(s[d + k] == t[k]);
        assert(match_at(s, d + k) == match_at(t, k)) by {
            if d + k + 7 <= s.len() {
                assert(forall|m: int| 0 <= m < 7 ==> #[trigger] s[d + k + m] == t[k + m]);
            }
        }
        if r && !is_space_byte(s[d + k]) {
            lemma_rewrite_suffix(s, d, k + 1, true);
        } else if match_at(s, d + k) {
            lemma_rewrite_suffix(s, d, k + 6, true);
            assert(s[d + k + 5] == t[k + 5]);
        } else {
            lemma_rewrite_suffix(s, d, k + 1, false);
        }
    }
}

proof fn lemma_rewrite_concat_at(a: Seq<u8>, b: Seq<u8>, i: int, r: bool)
    requires
        0 <= i <= a.len(),
    ensures
        rewrite_from(a + seq![10u8] + b, i, r) == rewrite_from(a, i, r) + seq![10u8]
            + translate_win_spec(b),
    decreases a.len() - i,
{
    let s = a + seq![10u8] + b;
    assert(s.len() == a.len() + 1 + b.len());
    assert(forall|m: int| 0 <= m < a.len() ==> #[trigger] s[m] == a[m]);
    assert(s[a.len() as int] == 10u8);
    assert(forall|m: int| 0 <= m < b.len() ==> #[trigger] s[a.len() + 1 + m] == b[m]);
    if i == a.len() {
        assert(is_space_byte(s[i]));
        assert(!match_at(s, i)) by {
            if match_at(s, i) {
                assert(s[i] == 47);
            }
        }
        assert(rewrite_from(s, i, r) == seq![10u8] + rewrite_from(s, i + 1, false));
        lemma_rewrite_suffix(s, a.len() + 1 as int, 0, false);
        assert(s.subrange(a.len() + 1 as int, s.len() as int) =~= b);
        assert(rewrite_from(a, i, r) == Seq::<u8>::empty());
        assert(seq![10u8] + translate_win_spec(b) =~= Seq::<u8>::empty() + seq![10u8]
            + translate_win_spec(b));
    } else {
        // A match near the boundary would have to place the newline byte on
        // one of the pattern's seven positions, none of which admits it.
        assert(s[i] == a[i]);
        if match_at(s, i) && i + 7 > a.len() {
            let off = a.len() - i;
            assert(0 <= off < 7);
            assert(s[a.len() as int] == 10u8);
            assert(!is_letter_byte(10u8));
            assert(false);
        }
        assert(match_at(s, i) ==> match_at(a, i)) by {
            if match_at(s, i) {
                assert(i + 7 <= a.len());
                assert(forall|m: int| 0 <= m < 7 ==> #[trigger] s[i + m] == a[i + m]);
            }
        }
        assert(match_at(a, i) ==> match_at(s, i)) by {
            if match_at(a, i) {
                assert(forall|m: int| 0 <= m < 7 ==> #[trigger] s[i + m] == a[i + m]);
            }
        }
        if r && !is_space_byte(s[i]) {
            lemma_rewrite_concat_at(a, b, i + 1, true);
            assert(rewrite_from(s, i, r) =~= rewrite_from(a, i, r) + seq![10u8]
                + translate_win_spec(b));
        } else if match_at(s, i) {
            lemma_rewrite_concat_at(a, b, i + 6, true);
            assert(s[i + 5] == a[i + 5]);
            assert(rewrite_from(s, i, r) =~= rewrite_from(a, i, r) + seq![10u8]
                + translate_win_spec(b));
        } else {
            lemma_rewrite_concat_at(a, b, i + 1, false);
            assert(rewrite_from(s, i, r) =~= rewrite_from(a, i, r) + seq![10u8]
                + translate_win_spec(b));
        }
    }
}

/// Lines are rewritten independently: splitting the stream at a newline and
/// rewriting the halves gives exactly the rewrite of the whole.
pub proof fn lemma_inbound_splits_lines(a: Seq<u8>, b: Seq<u8>)
    ensures
        translate_win_spec(a + seq![10u8] + b) == translate_win_spec(a) + seq![10u8]
            + translate_win_spec(b),
{
    lemma_rewrite_concat_at(a, b, 0, false);
}

} // verus!
