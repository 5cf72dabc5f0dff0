//! Drive mapping: from a host drive-letter designation to the execution
//! environment's mount-point prefix.

use vstd::prelude::*;
use vstd::string::*;
use crate::chars::{is_ascii_letter, lower_char, str_to_chars, chars_to_string, ascii_letter, to_lower};

verus! {

/// The prefix text recognized as a host drive designation: a single ASCII
/// letter followed by a colon, as in `C:`.
pub open spec fn is_drive_designation(s: Seq<char>) -> bool {
    s.len() == 2 && is_ascii_letter(s[0]) && s[1] == ':'
}

/// The canonical (lowercased) letter of a drive designation.
pub open spec fn drive_letter_of(s: Seq<char>) -> Seq<char> {
    seq![lower_char(s[0])]
}

/// Extracts the lowercased drive letter from a drive designation such as
/// `C:`; any other prefix (UNC-style, device, share) has no single letter
/// and yields `None`.
pub fn get_drive_letter(prefix: &str) -> (r: Option<String>)
    ensures
        match r {
            Some(l) => is_drive_designation(prefix@) && l@ == drive_letter_of(prefix@),
            None => !is_drive_designation(prefix@),
        },
{
    let v = str_to_chars(prefix);
    if v.len() == 2 && ascii_letter(v[0]) && v[1] == ':' {
        let mut l: Vec<char> = Vec::new();
        l.push(to_lower(v[0]));
        assert(l@ =~= drive_letter_of(prefix@));
        Some(chars_to_string(&l))
    } else {
        None
    }
}

/// The environment mount prefix for a lowercased drive letter, e.g. `/mnt/d`.
pub open spec fn prefix_for_drive(drive: Seq<char>) -> Seq<char> {
    "/mnt/"@ + drive
}

/// Renders the mount-point prefix under which the given drive is exposed
/// inside the execution environment.
pub fn get_prefix_for_drive(drive: &str) -> (r: String)
    ensures
        r@ == prefix_for_drive(drive@),
{
    let base = String::from_str("/mnt/");
    base.concat(drive)
}

} // verus!
