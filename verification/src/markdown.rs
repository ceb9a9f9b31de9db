//! Markdown parsing: the text is scanned for the repeating pattern of an
//! optional `%%yes%%`/`%%no%%` directive, a `$$ ... $$` math block whose body
//! runs to the first closing `$$`, and an optional trailing `%%name%%`
//! directive, with only newlines between the parts. The scan takes the
//! leftmost match and resumes where the match ended.

use vstd::prelude::*;

use crate::csv::spec_record;
use crate::equation::{spec_sanitize, Equation, EquationModel};
use crate::names::{
    assigned_names, count_matching, lemma_count_matching_prefix, spec_decorated, suffixed_name,
};
use crate::text::{
    chars_of, find_pair_from, find_pair_in, lemma_find_pair_from, lemma_skip_newlines,
    skip_newlines, skip_newlines_in, spec_trim, string_of, subvec, trim, views_of,
};

verus! {

/// One matched equation block: where the match ends, the activity its
/// directive selects, the raw body between the dollar delimiters and the
/// optional trailing name.
pub struct MdMatch {
    pub end: int,
    pub active: bool,
    pub body: Seq<char>,
    pub name: Option<Seq<char>>,
}

/// The activity directive starting exactly at `p`: `%%yes%%`, `%%no%%` or
/// the empty `%%%%`, with the activity it selects and its length.
pub open spec fn directive_at(s: Seq<char>, p: int) -> Option<(bool, int)> {
    if 0 <= p && p + 7 <= s.len() && s[p] == '%' && s[p + 1] == '%' && s[p + 2] == 'y' && s[p + 3]
        == 'e' && s[p + 4] == 's' && s[p + 5] == '%' && s[p + 6] == '%' {
        Some((true, 7))
    } else if 0 <= p && p + 6 <= s.len() && s[p] == '%' && s[p + 1] == '%' && s[p + 2] == 'n' && s[p
        + 3] == 'o' && s[p + 4] == '%' && s[p + 5] == '%' {
        Some((false, 6))
    } else if 0 <= p && p + 4 <= s.len() && s[p] == '%' && s[p + 1] == '%' && s[p + 2] == '%' && s[p
        + 3] == '%' {
        Some((true, 4))
    } else {
        None
    }
}

/// The position right after an opening `$$` reachable from `p` across
/// newlines, if there is one.
pub open spec fn open_dollars_from(s: Seq<char>, p: int) -> Option<int> {
    let q = skip_newlines(s, p);
    if q + 1 < s.len() && s[q] == '$' && s[q + 1] == '$' {
        Some(q + 2)
    } else {
        None
    }
}

/// The rest of a match whose opening `$$` ends at `o`: the body runs to the
/// first closing `$$`; after it, across newlines, a trailing `%%` opens a
/// name that runs to the first closing `%%`. A trailing `%%` without a
/// closing `%%` is not part of the match.
pub open spec fn finish_match(s: Seq<char>, active: bool, o: int) -> Option<MdMatch> {
    let r = skip_newlines(s, o);
    match find_pair_from(s, '$', r) {
        Some(cl) => {
            let body = s.subrange(r, cl);
            let t = skip_newlines(s, cl + 2);
            if t + 1 < s.len() && s[t] == '%' && s[t + 1] == '%' {
                match find_pair_from(s, '%', t + 2) {
                    Some(u) => Some(
                        MdMatch { end: u + 2, active, body, name: Some(s.subrange(t + 2, u)) },
                    ),
                    None => Some(MdMatch { end: t, active, body, name: None }),
                }
            } else {
                Some(MdMatch { end: t, active, body, name: None })
            }
        },
        None => None,
    }
}

/// The match attempt at position `p`. A directive is part of the match only
/// when a math block follows it; without one the block must follow `p`
/// directly (across newlines) and the record defaults to active. A directive
/// that no block follows starts no match: the position after it holds no
/// `$$`, and `p` itself then holds `%`, so both readings fail.
pub open spec fn match_at(s: Seq<char>, p: int) -> Option<MdMatch> {
    match directive_at(s, p) {
        Some((act, dl)) => match open_dollars_from(s, p + dl) {
            Some(o) => finish_match(s, act, o),
            None => None,
        },
        None => match open_dollars_from(s, p) {
            Some(o) => finish_match(s, true, o),
            None => None,
        },
    }
}

/// A successful match ends inside the text and at least four characters
/// past where it began.
pub proof fn lemma_match_at_bounds(s: Seq<char>, p: int)
    requires
        0 <= p,
    ensures
        match match_at(s, p) {
            Some(m) => p + 4 <= m.end <= s.len(),
            None => true,
        },
{
    let base: int = match directive_at(s, p) {
        Some((act, dl)) => p + dl,
        None => p,
    };
    if base <= s.len() {
        lemma_skip_newlines(s, base);
    }
    let q = skip_newlines(s, base);
    if q + 1 < s.len() && s[q] == '$' && s[q + 1] == '$' {
        let o = q + 2;
        lemma_skip_newlines(s, o);
        let r = skip_newlines(s, o);
        lemma_find_pair_from(s, '$', r);
        match find_pair_from(s, '$', r) {
            Some(cl) => {
                lemma_skip_newlines(s, cl + 2);
                let t = skip_newlines(s, cl + 2);
                if t + 1 < s.len() && s[t] == '%' && s[t + 1] == '%' {
                    lemma_find_pair_from(s, '%', t + 2);
                }
            },
            None => {},
        }
    }
}

/// All matches of the scan from position `p`: the leftmost successful match
/// attempt is taken and the scan resumes where that match ended.
pub open spec fn md_matches_from(s: Seq<char>, p: int) -> Seq<MdMatch>
    decreases s.len() - p,
    when 0 <= p
{
    proof {
        lemma_match_at_bounds(s, p);
    }
    if p >= s.len() {
        Seq::empty()
    } else {
        match match_at(s, p) {
            Some(m) => seq![m] + md_matches_from(s, m.end),
            None => md_matches_from(s, p + 1),
        }
    }
}

/// The records of the matched blocks in order, threading the raw names seen
/// so far through the duplicate-suffix counting. A block without a trailing
/// name directive is named `default_equation`.
pub open spec fn spec_md_records(ms: Seq<MdMatch>, seen: Seq<Seq<char>>) -> Seq<EquationModel>
    decreases ms.len(),
{
    if ms.len() == 0 {
        Seq::empty()
    } else {
        let m = ms[0];
        let raw = match m.name {
            Some(n) => n,
            None => "default_equation"@,
        };
        seq![
            spec_record(m.active, raw, count_matching(seen, raw, seen.len() as int), spec_trim(m.body)),
        ] + spec_md_records(ms.subrange(1, ms.len() as int), seen.push(raw))
    }
}

/// All records parsed from a Markdown document.
pub open spec fn spec_parse_markdown(content: Seq<char>) -> Seq<EquationModel> {
    spec_md_records(md_matches_from(content, 0), Seq::empty())
}

/// The raw name of each matched block, in order: the trailing directive's
/// text, or the default.
pub open spec fn md_raw_names(ms: Seq<MdMatch>) -> Seq<Seq<char>> {
    ms.map_values(
        |m: MdMatch|
            match m.name {
                Some(n) => n,
                None => "default_equation"@,
            },
    )
}

/// Every matched block yields exactly one record.
pub proof fn lemma_md_record_count(ms: Seq<MdMatch>, seen: Seq<Seq<char>>)
    ensures
        spec_md_records(ms, seen).len() == ms.len(),
    decreases ms.len(),
{
    if ms.len() > 0 {
        let raw = match ms[0].name {
            Some(n) => n,
            None => "default_equation"@,
        };
        lemma_md_record_count(ms.subrange(1, ms.len() as int), seen.push(raw));
    }
}

proof fn lemma_md_records_names(ms: Seq<MdMatch>, seen: Seq<Seq<char>>, k: int)
    requires
        0 <= k < ms.len(),
    ensures
        spec_md_records(ms, seen)[k].name == spec_sanitize(
            spec_decorated(
                md_raw_names(ms)[k],
                count_matching(seen + md_raw_names(ms), md_raw_names(ms)[k], seen.len() + k),
            ),
        ),
    decreases ms.len(),
{
    lemma_md_record_count(ms, seen);
    let rest = ms.subrange(1, ms.len() as int);
    let raw = match ms[0].name {
        Some(n) => n,
        None => "default_equation"@,
    };
    let rn = md_raw_names(ms);
    assert(rn =~= seq![raw] + md_raw_names(rest));
    assert(seen.push(raw) + md_raw_names(rest) =~= seen + rn);
    if k == 0 {
        lemma_count_matching_prefix(seen, seen + rn, raw, seen.len() as int);
    } else {
        lemma_md_records_names(rest, seen.push(raw), k - 1);
        assert(rn[k] == md_raw_names(rest)[k - 1]);
    }
}

/// Duplicate names within one Markdown parse are disambiguated: the name of
/// the `k`-th record is the raw name of the `k`-th matched block, suffixed
/// by the number of earlier blocks with the same raw name (the second
/// occurrence of a raw name `foo` becomes `foo_1`, the third `foo_2`), and
/// then sanitized.
pub proof fn lemma_markdown_duplicate_names(content: Seq<char>, k: int)
    requires
        0 <= k < spec_parse_markdown(content).len(),
    ensures
        spec_parse_markdown(content)[k].name == spec_sanitize(
            assigned_names(md_raw_names(md_matches_from(content, 0)))[k],
        ),
{
    let ms = md_matches_from(content, 0);
    let rn = md_raw_names(ms);
    lemma_md_record_count(ms, Seq::empty());
    lemma_md_records_names(ms, Seq::empty(), k);
    assert(Seq::<Seq<char>>::empty() + rn =~= rn);
}

/// One matched equation block, as the scanner found it.
struct FoundBlock {
    end: usize,
    active: bool,
    body: Vec<char>,
    name: Option<Vec<char>>,
}

impl View for FoundBlock {
    type V = MdMatch;

    closed spec fn view(&self) -> MdMatch {
        MdMatch {
            end: self.end as int,
            active: self.active,
            body: self.body@,
            name: match self.name {
                Some(n) => Some(n@),
                None => None,
            },
        }
    }
}

/// The activity directive starting exactly at `p`, if any.
fn directive_check(v: &Vec<char>, p: usize) -> (r: Option<(bool, usize)>)
    requires
        p <= v@.len(),
    ensures
        match r {
            Some(ad) => directive_at(v@, p as int) == Some((ad.0, ad.1 as int)) && p + ad.1
                <= v@.len(),
            None => directive_at(v@, p as int) is None,
        },
{
    let n = v.len();
    if n - p >= 7 && v[p] == '%' && v[p + 1] == '%' && v[p + 2] == 'y' && v[p + 3] == 'e' && v[p
        + 4] == 's' && v[p + 5] == '%' && v[p + 6] == '%' {
        Some((true, 7))
    } else if n - p >= 6 && v[p] == '%' && v[p + 1] == '%' && v[p + 2] == 'n' && v[p + 3] == 'o'
        && v[p + 4] == '%' && v[p + 5] == '%' {
        Some((false, 6))
    } else if n - p >= 4 && v[p] == '%' && v[p + 1] == '%' && v[p + 2] == '%' && v[p + 3] == '%' {
        Some((true, 4))
    } else {
        None
    }
}

/// The position right after an opening `$$` reachable from `p` across
/// newlines, if any.
fn open_check(v: &Vec<char>, p: usize) -> (r: Option<usize>)
    requires
        p <= v@.len(),
    ensures
        match r {
            Some(o) => open_dollars_from(v@, p as int) == Some(o as int) && o <= v@.len(),
            None => open_dollars_from(v@, p as int) is None,
        },
{
    let q = skip_newlines_in(v, p);
    if q < v.len() && q + 1 < v.len() && v[q] == '$' && v[q + 1] == '$' {
        Some(q + 2)
    } else {
        None
    }
}

/// The match attempt at position `p`.
fn try_match(v: &Vec<char>, p: usize) -> (r: Option<FoundBlock>)
    requires
        p <= v@.len(),
    ensures
        match r {
            Some(fb) => match_at(v@, p as int) == Some(fb@),
            None => match_at(v@, p as int) is None,
        },
{
    let n = v.len();
    let opened: Option<(bool, usize)> = match directive_check(v, p) {
        Some((act, dl)) => {
            proof {
                assert(p + dl <= v@.len());
            }
            match open_check(v, p + dl) {
                Some(o) => Some((act, o)),
                None => None,
            }
        },
        None => match open_check(v, p) {
            Some(o) => Some((true, o)),
            None => None,
        },
    };
    match opened {
        None => None,
        Some((active, o)) => {
            let r0 = skip_newlines_in(v, o);
            proof {
                lemma_find_pair_from(v@, '$', r0 as int);
            }
            match find_pair_in(v, '$', r0) {
                None => None,
                Some(cl) => {
                    let body = subvec(v, r0, cl);
                    let t = skip_newlines_in(v, cl + 2);
                    if t < n && t + 1 < n && v[t] == '%' && v[t + 1] == '%' {
                        proof {
                            lemma_find_pair_from(v@, '%', t as int + 2);
                        }
                        match find_pair_in(v, '%', t + 2) {
                            Some(u) => {
                                let nm = subvec(v, t + 2, u);
                                Some(FoundBlock { end: u + 2, active, body, name: Some(nm) })
                            },
                            None => Some(FoundBlock { end: t, active, body, name: None }),
                        }
                    } else {
                        Some(FoundBlock { end: t, active, body, name: None })
                    }
                },
            }
        },
    }
}

/// All matched blocks of the document, leftmost first, each scan resuming
/// where the previous match ended.
fn find_blocks(v: &Vec<char>) -> (ms: Vec<FoundBlock>)
    ensures
        ms@.map_values(|fb: FoundBlock| fb@) == md_matches_from(v@, 0),
{
    let mut ms: Vec<FoundBlock> = Vec::new();
    let mut pos: usize = 0;
    proof {
        assert(ms@.map_values(|fb: FoundBlock| fb@) =~= Seq::<MdMatch>::empty());
    }
    while pos < v.len()
        invariant
            pos <= v@.len(),
            md_matches_from(v@, 0) == ms@.map_values(|fb: FoundBlock| fb@) + md_matches_from(
                v@,
                pos as int,
            ),
        decreases v@.len() - pos,
    {
        match try_match(v, pos) {
            Some(fb) => {
                proof {
                    lemma_match_at_bounds(v@, pos as int);
                }
                let e = fb.end;
                let ghost old_ms = ms@;
                ms.push(fb);
                proof {
                    assert(ms@.map_values(|fb: FoundBlock| fb@) =~= old_ms.map_values(
                        |fb: FoundBlock| fb@,
                    ) + seq![ms@[old_ms.len() as int]@]);
                }
                pos = e;
            },
            None => {
                pos = pos + 1;
            },
        }
    }
    proof {
        assert(md_matches_from(v@, pos as int) == Seq::<MdMatch>::empty());
        assert(ms@.map_values(|fb: FoundBlock| fb@) =~= md_matches_from(v@, 0));
    }
    ms
}

/// Parse Markdown content into equations: every matched block yields one
/// record, active unless its directive says `no`, its body trimmed, and its
/// name taken from the trailing directive or defaulting to
/// `default_equation`. Duplicate raw names get numeric suffixes, and names
/// are sanitized.
pub fn parse_markdown(content: &str) -> (eqs: Vec<Equation>)
    ensures
        eqs@.map_values(|e: Equation| e@) == spec_parse_markdown(content@),
{
    let v = chars_of(content);
    let ms = find_blocks(&v);
    let mut eqs: Vec<Equation> = Vec::new();
    let mut seen: Vec<Vec<char>> = Vec::new();
    let mut i: usize = 0;
    proof {
        assert(eqs@.map_values(|e: Equation| e@) =~= Seq::<EquationModel>::empty());
        assert(views_of(seen@) =~= Seq::<Seq<char>>::empty());
        assert(Seq::<EquationModel>::empty() + spec_md_records(
            md_matches_from(content@, 0),
            Seq::empty(),
        ) =~= spec_md_records(md_matches_from(content@, 0), Seq::empty()));
        assert(ms@.map_values(|fb: FoundBlock| fb@).subrange(0, ms@.len() as int) =~= ms@.map_values(
            |fb: FoundBlock| fb@,
        ));
    }
    while i < ms.len()
        invariant
            i <= ms@.len(),
            ms@.map_values(|fb: FoundBlock| fb@) == md_matches_from(content@, 0),
            spec_parse_markdown(content@) == eqs@.map_values(|e: Equation| e@) + spec_md_records(
                ms@.map_values(|fb: FoundBlock| fb@).subrange(i as int, ms@.len() as int),
                views_of(seen@),
            ),
        decreases ms@.len() - i,
    {
        let ghost remaining = ms@.map_values(|fb: FoundBlock| fb@).subrange(
            i as int,
            ms@.len() as int,
        );
        proof {
            assert(remaining[0] == ms@[i as int]@);
            assert(remaining.subrange(1, remaining.len() as int) =~= ms@.map_values(
                |fb: FoundBlock| fb@,
            ).subrange(i as int + 1, ms@.len() as int));
        }
        let raw: Vec<char> = match &ms[i].name {
            Some(n) => subvec(n, 0, n.len()),
            None => chars_of("default_equation"),
        };
        proof {
            assert(raw@ =~= (match remaining[0].name {
                Some(n) => n,
                None => "default_equation"@,
            }));
        }
        let body = trim(&ms[i].body);
        let active = ms[i].active;
        let name = suffixed_name(&seen, &raw);
        let ghost old_seen = seen@;
        seen.push(raw);
        proof {
            assert(views_of(seen@) =~= views_of(old_seen).push(
                match remaining[0].name {
                    Some(n) => n,
                    None => "default_equation"@,
                },
            ));
        }
        let name_str = string_of(&name);
        let body_str = string_of(&body);
        let ghost old_eqs = eqs@;
        let eq = Equation::new(active, name_str.as_str(), body_str.as_str());
        eqs.push(eq);
        proof {
            let ghost raw_spec = match remaining[0].name {
                Some(n) => n,
                None => "default_equation"@,
            };
            assert(eqs@.map_values(|e: Equation| e@) =~= old_eqs.map_values(|e: Equation| e@).push(
                eq@,
            ));
            assert(eq@ == spec_record(
                remaining[0].active,
                raw_spec,
                count_matching(views_of(old_seen), raw_spec, old_seen.len() as int),
                spec_trim(remaining[0].body),
            ));
            assert(old_eqs.map_values(|e: Equation| e@).push(eq@) =~= old_eqs.map_values(
                |e: Equation| e@,
            ) + seq![eq@]);
            assert(eqs@.map_values(|e: Equation| e@) + spec_md_records(
                ms@.map_values(|fb: FoundBlock| fb@).subrange(i as int + 1, ms@.len() as int),
                views_of(seen@),
            ) =~= old_eqs.map_values(|e: Equation| e@) + spec_md_records(
                remaining,
                views_of(old_seen),
            ));
        }
        i = i + 1;
    }
    proof {
        assert(ms@.map_values(|fb: FoundBlock| fb@).subrange(i as int, ms@.len() as int).len()
            == 0);
        assert(eqs@.map_values(|e: Equation| e@) =~= spec_parse_markdown(content@));
    }
    eqs
}

} // verus!
