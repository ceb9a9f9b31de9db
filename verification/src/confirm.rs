//! Interpretation of a yes/no console answer: the decision half of the
//! confirmation prompt. The surrounding application reads lines and asks
//! again while the answer stays undecided.

use vstd::prelude::*;

use crate::text::{chars_of, spec_trim, trim};

verus! {

/// Whether the trimmed answer affirms: `y` or `yes`, ASCII case-insensitive.
pub open spec fn spec_affirms(t: Seq<char>) -> bool {
    ||| (t.len() == 1 && (t[0] == 'y' || t[0] == 'Y'))
    ||| (t.len() == 3 && (t[0] == 'y' || t[0] == 'Y') && (t[1] == 'e' || t[1] == 'E') && (t[2]
        == 's' || t[2] == 'S'))
}

/// Whether the trimmed answer declines: `n` or `no`, ASCII case-insensitive.
pub open spec fn spec_declines(t: Seq<char>) -> bool {
    ||| (t.len() == 1 && (t[0] == 'n' || t[0] == 'N'))
    ||| (t.len() == 2 && (t[0] == 'n' || t[0] == 'N') && (t[1] == 'o' || t[1] == 'O'))
}

/// The decision a console answer expresses once trimmed: yes, no, or none,
/// in which case the prompt is repeated.
pub open spec fn spec_yes_no(s: Seq<char>) -> Option<bool> {
    let t = spec_trim(s);
    if spec_affirms(t) {
        Some(true)
    } else if spec_declines(t) {
        Some(false)
    } else {
        None
    }
}

/// Interpret one console answer to a yes/no prompt.
pub fn parse_yes_no(answer: &str) -> (r: Option<bool>)
    ensures
        r == spec_yes_no(answer@),
{
    let v = chars_of(answer);
    let t = trim(&v);
    if t.len() == 1 && (t[0] == 'y' || t[0] == 'Y') {
        Some(true)
    } else if t.len() == 3 && (t[0] == 'y' || t[0] == 'Y') && (t[1] == 'e' || t[1] == 'E') && (t[2]
        == 's' || t[2] == 'S') {
        Some(true)
    } else if t.len() == 1 && (t[0] == 'n' || t[0] == 'N') {
        Some(false)
    } else if t.len() == 2 && (t[0] == 'n' || t[0] == 'N') && (t[1] == 'o' || t[1] == 'O') {
        Some(false)
    } else {
        None
    }
}

} // verus!
