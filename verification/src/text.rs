//! Character-level utilities shared by the parsers: conversion between
//! strings and character vectors, searching, trimming and splitting.

use vstd::prelude::*;
use vstd::string::*;

verus! {

/// Relies on `String::push`: appends one character at the end of the string.
#[verifier::external_body]
fn push_char(s: &mut String, c: char)
    ensures
        final(s)@ == old(s)@.push(c),
{
    s.push(c)
}

/// The characters of `s`, as a vector.
pub fn chars_of(s: &str) -> (v: Vec<char>)
    ensures
        v@ == s@,
{
    let n = s.unicode_len();
    let mut v: Vec<char> = Vec::new();
    let mut i: usize = 0;
    while i < n
        invariant
            n == s@.len(),
            i <= n,
            v@ == s@.subrange(0, i as int),
        decreases n - i,
    {
        let c = s.get_char(i);
        v.push(c);
        proof {
            assert(s@.subrange(0, i as int).push(s@[i as int]) =~= s@.subrange(0, i as int + 1));
        }
        i = i + 1;
    }
    proof {
        assert(v@ =~= s@);
    }
    v
}

/// A string holding exactly the characters of `v`.
pub fn string_of(v: &Vec<char>) -> (s: String)
    ensures
        s@ == v@,
{
    let mut s = String::new();
    let mut i: usize = 0;
    while i < v.len()
        invariant
            i <= v@.len(),
            s@ == v@.subrange(0, i as int),
        decreases v@.len() - i,
    {
        push_char(&mut s, v[i]);
        proof {
            assert(v@.subrange(0, i as int).push(v@[i as int]) =~= v@.subrange(0, i as int + 1));
        }
        i = i + 1;
    }
    proof {
        assert(s@ =~= v@);
    }
    s
}

/// The copy of `v[a..b]`.
pub fn subvec(v: &Vec<char>, a: usize, b: usize) -> (r: Vec<char>)
    requires
        a <= b <= v@.len(),
    ensures
        r@ == v@.subrange(a as int, b as int),
{
    let mut r: Vec<char> = Vec::new();
    let mut i: usize = a;
    while i < b
        invariant
            a <= i <= b <= v@.len(),
            r@ == v@.subrange(a as int, i as int),
        decreases b - i,
    {
        r.push(v[i]);
        proof {
            assert(v@.subrange(a as int, i as int).push(v@[i as int]) =~= v@.subrange(
                a as int,
                i as int + 1,
            ));
        }
        i = i + 1;
    }
    r
}

/// Whether two character vectors hold the same characters.
pub fn chars_eq(a: &Vec<char>, b: &Vec<char>) -> (r: bool)
    ensures
        r == (a@ == b@),
{
    if a.len() != b.len() {
        return false;
    }
    let mut i: usize = 0;
    while i < a.len()
        invariant
            a@.len() == b@.len(),
            i <= a@.len(),
            forall|j: int| 0 <= j < i ==> a@[j] == b@[j],
        decreases a@.len() - i,
    {
        if a[i] != b[i] {
            return false;
        }
        i = i + 1;
    }
    proof {
        assert(a@ =~= b@);
    }
    true
}

/// The position of the first occurrence of `c` in `s` at or after `from`.
pub open spec fn find_char_from(s: Seq<char>, c: char, from: int) -> Option<int>
    decreases s.len() - from,
{
    if from < 0 || from >= s.len() {
        None
    } else if s[from] == c {
        Some(from)
    } else {
        find_char_from(s, c, from + 1)
    }
}

pub proof fn lemma_find_char_from(s: Seq<char>, c: char, from: int)
    requires
        0 <= from,
    ensures
        match find_char_from(s, c, from) {
            Some(i) => from <= i < s.len() && s[i] == c && (forall|j: int|
                from <= j < i ==> s[j] != c),
            None => forall|j: int| from <= j < s.len() ==> s[j] != c,
        },
    decreases s.len() - from,
{
    if from < s.len() && s[from] != c {
        lemma_find_char_from(s, c, from + 1);
    }
}

/// If `c` first appears at position `i` when scanning from `from`, the search
/// reports exactly `i`.
pub proof fn lemma_find_char_from_exact(s: Seq<char>, c: char, from: int, i: int)
    requires
        0 <= from <= i < s.len(),
        s[i] == c,
        forall|j: int| from <= j < i ==> s[j] != c,
    ensures
        find_char_from(s, c, from) == Some(i),
    decreases i - from,
{
    if from < i {
        lemma_find_char_from_exact(s, c, from + 1, i);
    }
}

/// The position of the first doubled occurrence `c c` in `s` at or after `from`.
pub open spec fn find_pair_from(s: Seq<char>, c: char, from: int) -> Option<int>
    decreases s.len() - from,
{
    if from < 0 || from + 1 >= s.len() {
        None
    } else if s[from] == c && s[from + 1] == c {
        Some(from)
    } else {
        find_pair_from(s, c, from + 1)
    }
}

pub proof fn lemma_find_pair_from(s: Seq<char>, c: char, from: int)
    requires
        0 <= from,
    ensures
        match find_pair_from(s, c, from) {
            Some(i) => from <= i && i + 1 < s.len() && s[i] == c && s[i + 1] == c && (forall|j: int|
                from <= j < i ==> !(#[trigger] s[j] == c && s[j + 1] == c)),
            None => forall|j: int|
                from <= j && j + 1 < s.len() ==> !(#[trigger] s[j] == c && s[j + 1] == c),
        },
    decreases s.len() - from,
{
    if from + 1 < s.len() && !(s[from] == c && s[from + 1] == c) {
        lemma_find_pair_from(s, c, from + 1);
    }
}

/// First doubled occurrence of `c` in `v` at or after `from`, by linear scan.
pub fn find_pair_in(v: &Vec<char>, c: char, from: usize) -> (r: Option<usize>)
    ensures
        match r {
            Some(i) => find_pair_from(v@, c, from as int) == Some(i as int),
            None => find_pair_from(v@, c, from as int) is None,
        },
{
    let mut i: usize = from;
    while i < v.len() && i + 1 < v.len() && !(v[i] == c && v[i + 1] == c)
        invariant
            from <= i,
            find_pair_from(v@, c, from as int) == find_pair_from(v@, c, i as int),
        decreases v@.len() - i,
    {
        i = i + 1;
    }
    if i < v.len() && i + 1 < v.len() {
        Some(i)
    } else {
        None
    }
}

/// The views of a sequence of character vectors.
pub open spec fn views_of(s: Seq<Vec<char>>) -> Seq<Seq<char>> {
    s.map_values(|v: Vec<char>| v@)
}

/// The segments of `s` between occurrences of `sep`, scanning from `from`.
pub open spec fn split_from(s: Seq<char>, sep: char, from: int) -> Seq<Seq<char>>
    decreases s.len() - from,
    when 0 <= from <= s.len()
{
    proof {
        lemma_find_char_from(s, sep, from);
    }
    match find_char_from(s, sep, from) {
        Some(i) => seq![s.subrange(from, i)] + split_from(s, sep, i + 1),
        None => seq![s.subrange(from, s.len() as int)],
    }
}

/// The segments of `s` between occurrences of `sep`. A separator at either
/// end or two adjacent separators yield empty segments; a sequence without
/// `sep` is one segment.
pub open spec fn split_char(s: Seq<char>, sep: char) -> Seq<Seq<char>> {
    split_from(s, sep, 0)
}

pub proof fn lemma_split_from_len(s: Seq<char>, sep: char, from: int)
    requires
        0 <= from <= s.len(),
    ensures
        split_from(s, sep, from).len() >= 1,
    decreases s.len() - from,
{
    lemma_find_char_from(s, sep, from);
    match find_char_from(s, sep, from) {
        Some(i) => {
            lemma_split_from_len(s, sep, i + 1);
        },
        None => {},
    }
}

/// Splits `v` at every occurrence of `sep`.
pub fn split_on(v: &Vec<char>, sep: char) -> (r: Vec<Vec<char>>)
    ensures
        views_of(r@) == split_char(v@, sep),
{
    let mut r: Vec<Vec<char>> = Vec::new();
    let mut cur: Vec<char> = Vec::new();
    let mut start: usize = 0;
    let mut i: usize = 0;
    while i < v.len()
        invariant
            start <= i <= v@.len(),
            cur@ == v@.subrange(start as int, i as int),
            forall|j: int| start <= j < i ==> v@[j] != sep,
            split_char(v@, sep) == views_of(r@) + split_from(v@, sep, start as int),
        decreases v@.len() - i,
    {
        if v[i] == sep {
            proof {
                lemma_find_char_from_exact(v@, sep, start as int, i as int);
            }
            let ghost old_r = r@;
            r.push(cur);
            cur = Vec::new();
            proof {
                assert(views_of(r@) =~= views_of(old_r).push(v@.subrange(
                    start as int,
                    i as int,
                )));
                assert(views_of(old_r).push(v@.subrange(start as int, i as int)) =~= views_of(
                    old_r,
                ) + seq![v@.subrange(start as int, i as int)]);
                assert(views_of(r@) + split_from(v@, sep, i as int + 1) =~= views_of(old_r) + (seq![
                    v@.subrange(start as int, i as int),
                ] + split_from(v@, sep, i as int + 1)));
            }
            start = i + 1;
        } else {
            cur.push(v[i]);
            proof {
                assert(v@.subrange(start as int, i as int).push(v@[i as int]) =~= v@.subrange(
                    start as int,
                    i as int + 1,
                ));
            }
        }
        i = i + 1;
    }
    proof {
        lemma_find_char_from(v@, sep, start as int);
    }
    let ghost old_r = r@;
    r.push(cur);
    proof {
        assert(views_of(r@) =~= views_of(old_r) + seq![v@.subrange(start as int, v@.len() as int)]);
        assert(views_of(r@) =~= split_char(v@, sep));
    }
    r
}

/// One trailing carriage return removed, as line reading strips it before a
/// line feed.
pub open spec fn strip_cr(s: Seq<char>) -> Seq<char> {
    if s.len() > 0 && s[s.len() - 1] == '\r' {
        s.subrange(0, s.len() - 1)
    } else {
        s
    }
}

/// The lines of `s`, as `BufRead::lines` yields them: split at each line
/// feed, with a carriage return dropped before every line feed, and with no
/// final empty line when `s` ends in a line feed.
pub open spec fn spec_lines(s: Seq<char>) -> Seq<Seq<char>> {
    let segs = split_char(s, '\n');
    let main = Seq::new((segs.len() - 1) as nat, |i: int| strip_cr(segs[i]));
    if segs.len() > 0 && segs.last().len() == 0 {
        main
    } else {
        main + seq![segs.last()]
    }
}

fn strip_cr_of(seg: &Vec<char>) -> (r: Vec<char>)
    ensures
        r@ == strip_cr(seg@),
{
    if seg.len() > 0 && seg[seg.len() - 1] == '\r' {
        subvec(seg, 0, seg.len() - 1)
    } else {
        subvec(seg, 0, seg.len())
    }
}

/// The lines of `v`, as reading it line by line would yield them.
pub fn lines_of(v: &Vec<char>) -> (r: Vec<Vec<char>>)
    ensures
        views_of(r@) == spec_lines(v@),
{
    let segs = split_on(v, '\n');
    proof {
        lemma_split_from_len(v@, '\n', 0);
    }
    let n = segs.len();
    let mut r: Vec<Vec<char>> = Vec::new();
    let mut i: usize = 0;
    while i < n - 1
        invariant
            n == segs@.len(),
            n >= 1,
            i <= n - 1,
            views_of(segs@) == split_char(v@, '\n'),
            views_of(r@) == Seq::new(i as nat, |j: int| strip_cr(split_char(v@, '\n')[j])),
        decreases n - 1 - i,
    {
        let ghost old_r = r@;
        let stripped = strip_cr_of(&segs[i]);
        r.push(stripped);
        proof {
            assert(views_of(segs@)[i as int] == segs@[i as int]@);
            assert(old_r.len() == views_of(old_r).len() == i);
            assert(r@[i as int]@ == strip_cr(split_char(v@, '\n')[i as int]));
            assert forall|j: int| 0 <= j < i + 1 implies views_of(r@)[j] == strip_cr(
                split_char(v@, '\n')[j],
            ) by {
                assert(views_of(r@)[j] == r@[j]@);
                if j < i {
                    assert(r@[j] == old_r[j]);
                    assert(views_of(old_r)[j] == old_r[j]@);
                    assert(views_of(old_r)[j] == strip_cr(split_char(v@, '\n')[j]));
                }
            }
            assert(views_of(r@) =~= Seq::new(
                (i + 1) as nat,
                |j: int| strip_cr(split_char(v@, '\n')[j]),
            ));
        }
        i = i + 1;
    }
    proof {
        assert(views_of(segs@)[n - 1] == segs@[n - 1]@);
        assert(split_char(v@, '\n').last() == segs@[n - 1]@);
    }
    if segs[n - 1].len() > 0 {
        let ghost old_r = r@;
        let last = subvec(&segs[n - 1], 0, segs[n - 1].len());
        r.push(last);
        proof {
            assert(last@ =~= segs@[n - 1]@);
            assert(old_r.len() == views_of(old_r).len());
            assert(forall|j: int| 0 <= j < old_r.len() ==> r@[j] == old_r[j]);
            assert(views_of(r@) =~= views_of(old_r) + seq![segs@[n - 1]@]);
            assert(segs@[n - 1]@ =~= split_char(v@, '\n').last());
            assert(views_of(r@) =~= spec_lines(v@));
        }
    } else {
        proof {
            assert(views_of(r@) =~= spec_lines(v@));
        }
    }
    r
}

/// Whether the character ends a line.
pub open spec fn is_newline(c: char) -> bool {
    c == '\n' || c == '\r'
}

/// The first position at or after `from` that does not hold a newline
/// character (or the end of `s`).
pub open spec fn skip_newlines(s: Seq<char>, from: int) -> int
    decreases s.len() - from,
{
    if !(0 <= from < s.len()) {
        from
    } else if is_newline(s[from]) {
        skip_newlines(s, from + 1)
    } else {
        from
    }
}

pub proof fn lemma_skip_newlines(s: Seq<char>, from: int)
    requires
        0 <= from <= s.len(),
    ensures
        from <= skip_newlines(s, from) <= s.len(),
        forall|j: int| from <= j < skip_newlines(s, from) ==> is_newline(s[j]),
        skip_newlines(s, from) < s.len() ==> !is_newline(s[skip_newlines(s, from)]),
    decreases s.len() - from,
{
    if from < s.len() && is_newline(s[from]) {
        lemma_skip_newlines(s, from + 1);
    }
}

/// Skips newline characters in `v` starting at `from`.
pub fn skip_newlines_in(v: &Vec<char>, from: usize) -> (r: usize)
    requires
        from <= v@.len(),
    ensures
        r as int == skip_newlines(v@, from as int),
        from <= r <= v@.len(),
{
    let mut i: usize = from;
    while i < v.len() && (v[i] == '\n' || v[i] == '\r')
        invariant
            from <= i <= v@.len(),
            skip_newlines(v@, from as int) == skip_newlines(v@, i as int),
        decreases v@.len() - i,
    {
        i = i + 1;
    }
    i
}

/// Whether the character has the Unicode white-space property, as the
/// standard library's `char::is_whitespace` reports it.
pub open spec fn is_space_char(c: char) -> bool {
    ||| c == '\t'
    ||| c == '\n'
    ||| c == '\u{000B}'
    ||| c == '\u{000C}'
    ||| c == '\r'
    ||| c == ' '
    ||| c == '\u{0085}'
    ||| c == '\u{00A0}'
    ||| c == '\u{1680}'
    ||| c == '\u{2000}'
    ||| c == '\u{2001}'
    ||| c == '\u{2002}'
    ||| c == '\u{2003}'
    ||| c == '\u{2004}'
    ||| c == '\u{2005}'
    ||| c == '\u{2006}'
    ||| c == '\u{2007}'
    ||| c == '\u{2008}'
    ||| c == '\u{2009}'
    ||| c == '\u{200A}'
    ||| c == '\u{2028}'
    ||| c == '\u{2029}'
    ||| c == '\u{202F}'
    ||| c == '\u{205F}'
    ||| c == '\u{3000}'
}

fn is_space(c: char) -> (r: bool)
    ensures
        r == is_space_char(c),
{
    c == '\t' || c == '\n' || c == '\u{000B}' || c == '\u{000C}' || c == '\r' || c == ' ' || c
        == '\u{0085}' || c == '\u{00A0}' || c == '\u{1680}' || c == '\u{2000}' || c == '\u{2001}'
        || c == '\u{2002}' || c == '\u{2003}' || c == '\u{2004}' || c == '\u{2005}' || c
        == '\u{2006}' || c == '\u{2007}' || c == '\u{2008}' || c == '\u{2009}' || c == '\u{200A}'
        || c == '\u{2028}' || c == '\u{2029}' || c == '\u{202F}' || c == '\u{205F}' || c
        == '\u{3000}'
}

/// The first position at or after `from` that does not hold white space.
pub open spec fn skip_spaces(s: Seq<char>, from: int) -> int
    decreases s.len() - from,
{
    if !(0 <= from < s.len()) {
        from
    } else if is_space_char(s[from]) {
        skip_spaces(s, from + 1)
    } else {
        from
    }
}

pub proof fn lemma_skip_spaces(s: Seq<char>, from: int)
    requires
        0 <= from <= s.len(),
    ensures
        from <= skip_spaces(s, from) <= s.len(),
    decreases s.len() - from,
{
    if from < s.len() && is_space_char(s[from]) {
        lemma_skip_spaces(s, from + 1);
    }
}

/// The position before which the trailing white space of `s[..upto]` starts.
pub open spec fn rtrim_end(s: Seq<char>, upto: int) -> int
    decreases upto,
{
    if !(1 <= upto <= s.len()) {
        upto
    } else if is_space_char(s[upto - 1]) {
        rtrim_end(s, upto - 1)
    } else {
        upto
    }
}

pub proof fn lemma_rtrim_end(s: Seq<char>, upto: int)
    requires
        0 <= upto <= s.len(),
    ensures
        0 <= rtrim_end(s, upto) <= upto,
    decreases upto,
{
    if 1 <= upto && is_space_char(s[upto - 1]) {
        lemma_rtrim_end(s, upto - 1);
    }
}

/// `s` with leading and trailing white space removed, as the standard
/// library's `str::trim` removes it.
pub open spec fn spec_trim(s: Seq<char>) -> Seq<char> {
    let a: int = skip_spaces(s, 0);
    let b: int = rtrim_end(s, s.len() as int);
    if a <= b {
        s.subrange(a, b)
    } else {
        Seq::empty()
    }
}

/// Removes leading and trailing white space.
pub fn trim(v: &Vec<char>) -> (r: Vec<char>)
    ensures
        r@ == spec_trim(v@),
{
    proof {
        lemma_skip_spaces(v@, 0);
        lemma_rtrim_end(v@, v@.len() as int);
    }
    let mut a: usize = 0;
    while a < v.len() && is_space(v[a])
        invariant
            a <= v@.len(),
            skip_spaces(v@, 0) == skip_spaces(v@, a as int),
        decreases v@.len() - a,
    {
        a = a + 1;
    }
    let mut b: usize = v.len();
    while b > a && is_space(v[b - 1])
        invariant
            a <= b <= v@.len(),
            a as int == skip_spaces(v@, 0),
            rtrim_end(v@, v@.len() as int) == rtrim_end(v@, b as int),
        decreases b,
    {
        b = b - 1;
    }
    if a >= b {
        proof {
            lemma_rtrim_end(v@, b as int);
            if skip_spaces(v@, 0) <= rtrim_end(v@, v@.len() as int) {
                assert(v@.subrange(skip_spaces(v@, 0), rtrim_end(v@, v@.len() as int))
                    =~= Seq::<char>::empty());
            }
        }
        Vec::new()
    } else {
        subvec(v, a, b)
    }
}

} // verus!
