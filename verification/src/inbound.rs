//! Inbound translation: rewriting environment-native paths in captured
//! output back to the host convention.
//!
//! The byte stream is scanned for the exact pattern
//! `/mnt/<single letter>/<non-whitespace run>`, which may begin anywhere, and
//! every occurrence is rewritten to `<letter>:/<run>` with the letter folded
//! to lowercase. The scan works on raw bytes so that non-UTF-8 output passes
//! through unharmed, and separators in this direction stay forward slashes.

use vstd::prelude::*;

verus! {

/// ASCII whitespace, the class that ends a path run: space, tab, line feed,
/// vertical tab, form feed, carriage return.
pub open spec fn is_space_byte(b: u8) -> bool {
    b == 32 || b == 9 || b == 10 || b == 11 || b == 12 || b == 13
}

/// An ASCII letter, either case: the only drive segment that is rewritten.
pub open spec fn is_letter_byte(b: u8) -> bool {
    (97 <= b && b <= 122) || (65 <= b && b <= 90)
}

/// An occurrence of the mount pattern at position `i`: `/mnt/`, one letter,
/// `/`.
pub open spec fn match_at(s: Seq<u8>, i: int) -> bool {
    &&& 0 <= i
    &&& i + 7 <= s.len()
    &&& s[i] == 47
    &&& s[i + 1] == 109
    &&& s[i + 2] == 110
    &&& s[i + 3] == 116
    &&& s[i + 4] == 47
    &&& is_letter_byte(s[i + 5])
    &&& s[i + 6] == 47
}

/// ASCII lower-casing of a byte; everything outside `A..=Z` is left alone.
pub open spec fn lower_letter_byte(b: u8) -> u8 {
    if 65 <= b && b <= 90 {
        (b + 32) as u8
    } else {
        b
    }
}

/// The rewrite, position by position. Outside a match (`in_run` false) each
/// position is tested: a match emits the drive letter, folded to lowercase,
/// and a colon, and enters the run that the match consumed; anything else is
/// copied. Inside a run, bytes are copied untested until the first
/// whitespace, where ordinary scanning resumes.
pub open spec fn rewrite_from(s: Seq<u8>, i: int, in_run: bool) -> Seq<u8>
    decreases s.len() - i,
{
    if i < 0 || i >= s.len() {
        Seq::<u8>::empty()
    } else if in_run && !is_space_byte(s[i]) {
        seq![s[i]] + rewrite_from(s, i + 1, true)
    } else if match_at(s, i) {
        seq![lower_letter_byte(s[i + 5]), 58] + rewrite_from(s, i + 6, true)
    } else {
        seq![s[i]] + rewrite_from(s, i + 1, false)
    }
}

/// The whole inbound rewrite of a byte stream.
pub open spec fn translate_win_spec(s: Seq<u8>) -> Seq<u8> {
    rewrite_from(s, 0, false)
}

/// Rewrites every occurrence of the mount pattern in `line` to the host
/// drive-letter form, the letter folded to lowercase, leaving all other
/// bytes exactly as they came.
pub fn translate_path_to_win(line: &[u8]) -> (r: Vec<u8>)
    ensures
        r@ == translate_win_spec(line@),
{
    let mut out: Vec<u8> = Vec::new();
    let mut i: usize = 0;
    let mut run = false;
    while i < line.len()
        invariant
            i <= line@.len(),
            translate_win_spec(line@) == out@ + rewrite_from(line@, i as int, run),
        decreases line@.len() - i,
    {
        let b = line[i];
        if run && !(b == 32 || b == 9 || b == 10 || b == 11 || b == 12 || b == 13) {
            out.push(b);
            assert(out@ + rewrite_from(line@, i + 1 as int, true) =~= translate_win_spec(line@));
            i = i + 1;
        } else if line.len() - i >= 7 && line[i] == 47 && line[i + 1] == 109 && line[i + 2] == 110
            && line[i + 3] == 116 && line[i + 4] == 47 && {
            let d = line[i + 5];
            (97 <= d && d <= 122) || (65 <= d && d <= 90)
        } && line[i + 6] == 47 {
            assert(match_at(line@, i as int));
            let d = line[i + 5];
            let folded = if 65 <= d && d <= 90 {
                d + 32
            } else {
                d
            };
            assert(folded == lower_letter_byte(line@[i + 5]));
            out.push(folded);
            out.push(58);
            assert(out@ + rewrite_from(line@, i + 6 as int, true) =~= translate_win_spec(line@));
            run = true;
            i = i + 6;
        } else {
            assert(!match_at(line@, i as int));
            out.push(b);
            assert(out@ + rewrite_from(line@, i + 1 as int, false) =~= translate_win_spec(line@));
            run = false;
            i = i + 1;
        }
    }
    assert(out@ =~= translate_win_spec(line@));
    out
}

/// A byte stream with no occurrence of the mount pattern is a fixpoint of
/// the rewrite.
pub proof fn lemma_inbound_fixpoint(s: Seq<u8>)
    requires
        forall|i: int| !match_at(s, i),
    ensures
        translate_win_spec(s) == s,
{
    lemma_rewrite_copies(s, 0);
    assert(s.subrange(0, s.len() as int) =~= s);
}

/// The inbound rewrite is idempotent once its result holds no further mount
/// pattern.
pub proof fn lemma_inbound_idempotent(s: Seq<u8>)
    requires
        forall|i: int| !match_at(translate_win_spec(s), i),
    ensures
        translate_win_spec(translate_win_spec(s)) == translate_win_spec(s),
{
    lemma_inbound_fixpoint(translate_win_spec(s));
}

proof fn lemma_rewrite_copies(s: Seq<u8>, i: int)
    requires
        0 <= i <= s.len(),
        forall|j: int| !match_at(s, j),
    ensures
        rewrite_from(s, i, false) == s.subrange(i, s.len() as int),
    decreases s.len() - i,
{
    if i >= s.len() {
        assert(s.subrange(i, s.len() as int) =~= Seq::<u8>::empty());
    } else {
        lemma_rewrite_copies(s, i + 1);
        assert(rewrite_from(s, i, false) =~= s.subrange(i, s.len() as int));
    }
}

} // verus!
