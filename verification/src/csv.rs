//! CSV parsing: the document is read as newline-delimited rows, the header
//! row is discarded unconditionally, and every later row with at least three
//! comma-separated fields yields one record. Shorter rows are skipped.

use vstd::prelude::*;

use crate::equation::{spec_sanitize, Equation, EquationModel};
use crate::names::{assigned_names, count_matching, lemma_count_matching_prefix, spec_decorated, suffixed_name};
use crate::text::{
    chars_of, lines_of, spec_lines, spec_trim, split_char, split_on, string_of, trim, views_of,
};

verus! {

/// Whether a field marks its record active: a case-insensitive match against
/// `yes`. Any other value, including an empty one, means inactive.
pub open spec fn spec_is_yes(s: Seq<char>) -> bool {
    s.len() == 3 && (s[0] == 'y' || s[0] == 'Y') && (s[1] == 'e' || s[1] == 'E') && (s[2] == 's'
        || s[2] == 'S')
}

fn is_yes(v: &Vec<char>) -> (r: bool)
    ensures
        r == spec_is_yes(v@),
{
    v.len() == 3 && (v[0] == 'y' || v[0] == 'Y') && (v[1] == 'e' || v[1] == 'E') && (v[2] == 's'
        || v[2] == 'S')
}

/// The record built from one accepted row or block: the suffixed raw name is
/// sanitized, the body is stored as handed in.
pub open spec fn spec_record(active: bool, raw: Seq<char>, prior: nat, body: Seq<char>) -> EquationModel {
    EquationModel { active, name: spec_sanitize(spec_decorated(raw, prior)), body }
}

/// The records of the given data rows, threading the raw names seen so far
/// through the duplicate-suffix counting.
pub open spec fn spec_csv_rows(rows: Seq<Seq<char>>, seen: Seq<Seq<char>>) -> Seq<EquationModel>
    decreases rows.len(),
{
    if rows.len() == 0 {
        Seq::empty()
    } else {
        let fields = split_char(rows[0], ',');
        let rest = rows.subrange(1, rows.len() as int);
        if fields.len() >= 3 {
            let raw = spec_trim(fields[2]);
            seq![
                spec_record(
                    spec_is_yes(spec_trim(fields[0])),
                    raw,
                    count_matching(seen, raw, seen.len() as int),
                    spec_trim(fields[1]),
                ),
            ] + spec_csv_rows(rest, seen.push(raw))
        } else {
            spec_csv_rows(rest, seen)
        }
    }
}

/// The data rows of a CSV document: its lines with the first discarded.
pub open spec fn spec_csv_data_rows(content: Seq<char>) -> Seq<Seq<char>> {
    let ls = spec_lines(content);
    if ls.len() == 0 {
        Seq::empty()
    } else {
        ls.subrange(1, ls.len() as int)
    }
}

/// All records parsed from a CSV document.
pub open spec fn spec_parse_csv(content: Seq<char>) -> Seq<EquationModel> {
    spec_csv_rows(spec_csv_data_rows(content), Seq::empty())
}

/// Parse CSV content into equations: the first line is discarded as a
/// header, each later line is split at commas, and lines with at least three
/// fields become records (field 0: active, field 1: body, field 2: name,
/// each trimmed). Duplicate raw names get numeric suffixes, and names are
/// sanitized.
pub fn parse_csv(content: &str) -> (eqs: Vec<Equation>)
    ensures
        eqs@.map_values(|e: Equation| e@) == spec_parse_csv(content@),
{
    let v = chars_of(content);
    let rows = lines_of(&v);
    let mut eqs: Vec<Equation> = Vec::new();
    let mut seen: Vec<Vec<char>> = Vec::new();
    if rows.len() == 0 {
        proof {
            assert(eqs@.map_values(|e: Equation| e@) =~= spec_parse_csv(content@));
        }
        return eqs;
    }
    let mut i: usize = 1;
    proof {
        assert(eqs@.map_values(|e: Equation| e@) =~= Seq::<EquationModel>::empty());
        assert(views_of(seen@) =~= Seq::<Seq<char>>::empty());
        assert(Seq::<EquationModel>::empty() + spec_csv_rows(
            views_of(rows@).subrange(1, rows@.len() as int),
            Seq::empty(),
        ) =~= spec_csv_rows(views_of(rows@).subrange(1, rows@.len() as int), Seq::empty()));
    }
    while i < rows.len()
        invariant
            1 <= i <= rows@.len(),
            views_of(rows@) == spec_lines(v@),
            v@ == content@,
            spec_parse_csv(content@) == eqs@.map_values(|e: Equation| e@) + spec_csv_rows(
                views_of(rows@).subrange(i as int, rows@.len() as int),
                views_of(seen@),
            ),
        decreases rows@.len() - i,
    {
        let ghost remaining = views_of(rows@).subrange(i as int, rows@.len() as int);
        proof {
            assert(remaining[0] == rows@[i as int]@);
            assert(remaining.subrange(1, remaining.len() as int) =~= views_of(rows@).subrange(
                i as int + 1,
                rows@.len() as int,
            ));
        }
        let fields = split_on(&rows[i], ',');
        if fields.len() >= 3 {
            let active = is_yes(&trim(&fields[0]));
            let body = trim(&fields[1]);
            let raw = trim(&fields[2]);
            let name = suffixed_name(&seen, &raw);
            let ghost old_seen = seen@;
            seen.push(raw);
            proof {
                assert(views_of(seen@) =~= views_of(old_seen).push(
                    spec_trim(split_char(remaining[0], ',')[2]),
                ));
            }
            let name_str = string_of(&name);
            let body_str = string_of(&body);
            let ghost old_eqs = eqs@;
            let eq = Equation::new(active, name_str.as_str(), body_str.as_str());
            eqs.push(eq);
            proof {
                assert(eqs@.map_values(|e: Equation| e@) =~= old_eqs.map_values(
                    |e: Equation| e@,
                ).push(eq@));
                assert(eq@ == spec_record(
                    spec_is_yes(spec_trim(split_char(remaining[0], ',')[0])),
                    spec_trim(split_char(remaining[0], ',')[2]),
                    count_matching(
                        views_of(old_seen),
                        spec_trim(split_char(remaining[0], ',')[2]),
                        old_seen.len() as int,
                    ),
                    spec_trim(split_char(remaining[0], ',')[1]),
                ));
                assert(old_eqs.map_values(|e: Equation| e@).push(eq@) =~= old_eqs.map_values(
                    |e: Equation| e@,
                ) + seq![eq@]);
                assert(eqs@.map_values(|e: Equation| e@) + spec_csv_rows(
                    views_of(rows@).subrange(i as int + 1, rows@.len() as int),
                    views_of(seen@),
                ) =~= old_eqs.map_values(|e: Equation| e@) + spec_csv_rows(
                    remaining,
                    views_of(old_seen),
                ));
            }
        } else {
            proof {
                assert(spec_csv_rows(remaining, views_of(seen@)) == spec_csv_rows(
                    views_of(rows@).subrange(i as int + 1, rows@.len() as int),
                    views_of(seen@),
                ));
            }
        }
        i = i + 1;
    }
    proof {
        assert(views_of(rows@).subrange(i as int, rows@.len() as int).len() == 0);
        assert(eqs@.map_values(|e: Equation| e@) =~= spec_parse_csv(content@));
    }
    eqs
}

/// The number of rows whose comma-split yields at least three fields.
pub open spec fn count_qualifying(rows: Seq<Seq<char>>) -> nat
    decreases rows.len(),
{
    if rows.len() == 0 {
        0
    } else {
        (if split_char(rows[0], ',').len() >= 3 {
            1nat
        } else {
            0nat
        }) + count_qualifying(rows.subrange(1, rows.len() as int))
    }
}

proof fn lemma_csv_rows_count(rows: Seq<Seq<char>>, seen: Seq<Seq<char>>)
    ensures
        spec_csv_rows(rows, seen).len() == count_qualifying(rows),
    decreases rows.len(),
{
    if rows.len() > 0 {
        let rest = rows.subrange(1, rows.len() as int);
        if split_char(rows[0], ',').len() >= 3 {
            lemma_csv_rows_count(rest, seen.push(spec_trim(split_char(rows[0], ',')[2])));
        } else {
            lemma_csv_rows_count(rest, seen);
        }
    }
}

/// One CSV parse produces exactly one record per qualifying data row: rows
/// with fewer than three fields are excluded, every other data row counts.
pub proof fn lemma_csv_record_count(content: Seq<char>)
    ensures
        spec_parse_csv(content).len() == count_qualifying(spec_csv_data_rows(content)),
{
    lemma_csv_rows_count(spec_csv_data_rows(content), Seq::empty());
}

/// The trimmed raw names of the qualifying rows, in order.
pub open spec fn csv_raw_names(rows: Seq<Seq<char>>) -> Seq<Seq<char>>
    decreases rows.len(),
{
    if rows.len() == 0 {
        Seq::empty()
    } else {
        let rest = rows.subrange(1, rows.len() as int);
        if split_char(rows[0], ',').len() >= 3 {
            seq![spec_trim(split_char(rows[0], ',')[2])] + csv_raw_names(rest)
        } else {
            csv_raw_names(rest)
        }
    }
}

proof fn lemma_csv_rows_names(rows: Seq<Seq<char>>, seen: Seq<Seq<char>>, k: int)
    requires
        0 <= k < spec_csv_rows(rows, seen).len(),
    ensures
        k < csv_raw_names(rows).len(),
        spec_csv_rows(rows, seen)[k].name == spec_sanitize(
            spec_decorated(
                csv_raw_names(rows)[k],
                count_matching(
                    seen + csv_raw_names(rows),
                    csv_raw_names(rows)[k],
                    seen.len() + k,
                ),
            ),
        ),
    decreases rows.len(),
{
    lemma_csv_rows_count(rows, seen);
    let rest = rows.subrange(1, rows.len() as int);
    let rn = csv_raw_names(rows);
    if split_char(rows[0], ',').len() >= 3 {
        let raw = spec_trim(split_char(rows[0], ',')[2]);
        let rn_rest = csv_raw_names(rest);
        assert(rn =~= seq![raw] + rn_rest);
        assert(seen.push(raw) + rn_rest =~= seen + rn);
        if k == 0 {
            lemma_count_matching_prefix(seen, seen + rn, raw, seen.len() as int);
        } else {
            lemma_csv_rows_names(rest, seen.push(raw), k - 1);
            assert(rn[k] == rn_rest[k - 1]);
        }
    } else {
        lemma_csv_rows_names(rest, seen, k);
        assert(rn =~= csv_raw_names(rest));
    }
}

/// Duplicate names within one CSV parse are disambiguated: the name of the
/// `k`-th record is the raw name of the `k`-th qualifying row, suffixed by
/// the number of earlier qualifying rows with the same raw name (the second
/// occurrence of a raw name `foo` becomes `foo_1`, the third `foo_2`), and
/// then sanitized.
pub proof fn lemma_csv_duplicate_names(content: Seq<char>, k: int)
    requires
        0 <= k < spec_parse_csv(content).len(),
    ensures
        k < csv_raw_names(spec_csv_data_rows(content)).len(),
        spec_parse_csv(content)[k].name == spec_sanitize(
            assigned_names(csv_raw_names(spec_csv_data_rows(content)))[k],
        ),
{
    let rows = spec_csv_data_rows(content);
    let rn = csv_raw_names(rows);
    lemma_csv_rows_names(rows, Seq::empty(), k);
    assert(Seq::<Seq<char>>::empty() + rn =~= rn);
}

} // verus!
