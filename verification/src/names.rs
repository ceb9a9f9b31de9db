//! Duplicate-name disambiguation: within one parse pass the n-th repeated
//! occurrence of a raw name gets the numeric suffix `_n`, counted per raw
//! name as it appears before sanitization.

use vstd::prelude::*;

use crate::text::{chars_eq, subvec, views_of};

verus! {

/// The decimal digit character for `d`.
pub open spec fn dec_digit(d: nat) -> char {
    if d == 0 {
        '0'
    } else if d == 1 {
        '1'
    } else if d == 2 {
        '2'
    } else if d == 3 {
        '3'
    } else if d == 4 {
        '4'
    } else if d == 5 {
        '5'
    } else if d == 6 {
        '6'
    } else if d == 7 {
        '7'
    } else if d == 8 {
        '8'
    } else {
        '9'
    }
}

/// The decimal representation of `n`, most significant digit first.
pub open spec fn dec_rep(n: nat) -> Seq<char>
    decreases n,
{
    if n < 10 {
        seq![dec_digit(n)]
    } else {
        dec_rep(n / 10).push(dec_digit(n % 10))
    }
}

fn dec_digit_char(d: u64) -> (c: char)
    requires
        d < 10,
    ensures
        c == dec_digit(d as nat),
{
    if d == 0 {
        '0'
    } else if d == 1 {
        '1'
    } else if d == 2 {
        '2'
    } else if d == 3 {
        '3'
    } else if d == 4 {
        '4'
    } else if d == 5 {
        '5'
    } else if d == 6 {
        '6'
    } else if d == 7 {
        '7'
    } else if d == 8 {
        '8'
    } else {
        '9'
    }
}

/// The decimal digits of `n`.
pub fn dec_chars(n: u64) -> (v: Vec<char>)
    ensures
        v@ == dec_rep(n as nat),
    decreases n,
{
    if n < 10 {
        let mut v: Vec<char> = Vec::new();
        v.push(dec_digit_char(n));
        proof {
            assert(v@ =~= seq![dec_digit(n as nat)]);
        }
        v
    } else {
        let mut v = dec_chars(n / 10);
        v.push(dec_digit_char(n % 10));
        v
    }
}

/// The name given to an occurrence of `raw` with `count` earlier occurrences
/// of the same raw name: unsuffixed for the first, `raw_count` afterwards.
pub open spec fn spec_decorated(raw: Seq<char>, count: nat) -> Seq<char> {
    if count == 0 {
        raw
    } else {
        raw + seq!['_'] + dec_rep(count)
    }
}

/// How many of the first `n` entries of `seen` equal `x`.
pub open spec fn count_matching(seen: Seq<Seq<char>>, x: Seq<char>, n: int) -> nat
    decreases n,
{
    if n <= 0 || n > seen.len() {
        0
    } else {
        count_matching(seen, x, n - 1) + (if seen[n - 1] == x {
            1nat
        } else {
            0nat
        })
    }
}

/// Counts how many entries of `seen` hold the same characters as `x`.
fn count_seen(seen: &Vec<Vec<char>>, x: &Vec<char>) -> (c: usize)
    ensures
        c as nat == count_matching(views_of(seen@), x@, seen@.len() as int),
{
    let mut c: usize = 0;
    let mut i: usize = 0;
    while i < seen.len()
        invariant
            i <= seen@.len(),
            c <= i,
            c as nat == count_matching(views_of(seen@), x@, i as int),
        decreases seen@.len() - i,
    {
        if chars_eq(&seen[i], x) {
            c = c + 1;
        }
        i = i + 1;
    }
    c
}

/// The name for the next occurrence of `raw`, given the raw names already
/// seen in this parse pass, with the duplicate suffix applied.
pub fn suffixed_name(seen: &Vec<Vec<char>>, raw: &Vec<char>) -> (name: Vec<char>)
    ensures
        name@ == spec_decorated(
            raw@,
            count_matching(views_of(seen@), raw@, seen@.len() as int),
        ),
{
    let c = count_seen(seen, raw);
    let mut name = subvec(raw, 0, raw.len());
    proof {
        assert(name@ =~= raw@);
    }
    if c > 0 {
        name.push('_');
        let mut digits = dec_chars(c as u64);
        name.append(&mut digits);
        proof {
            assert(name@ =~= raw@ + seq!['_'] + dec_rep(c as nat));
        }
    }
    name
}

/// The names a parse pass assigns to a sequence of raw names, before
/// sanitization: each occurrence is suffixed by the number of earlier equal
/// raw names, so the second occurrence of a raw name gets `_1`, the third
/// `_2`, and so on, while a first occurrence stays unsuffixed.
pub open spec fn assigned_names(raws: Seq<Seq<char>>) -> Seq<Seq<char>> {
    Seq::new(raws.len(), |i: int| spec_decorated(raws[i], count_matching(raws, raws[i], i)))
}

/// The count over the first `n` entries only reads those entries.
pub proof fn lemma_count_matching_prefix(a: Seq<Seq<char>>, b: Seq<Seq<char>>, x: Seq<char>, n: int)
    requires
        n <= a.len(),
        n <= b.len(),
        forall|j: int| 0 <= j < n ==> a[j] == b[j],
    ensures
        count_matching(a, x, n) == count_matching(b, x, n),
    decreases n,
{
    if n > 0 {
        lemma_count_matching_prefix(a, b, x, n - 1);
    }
}

} // verus!
