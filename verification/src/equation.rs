//! The equation record shared by both parsers and consumed by rendering:
//! an active flag, a filesystem-safe name and the equation body, together
//! with name sanitization and the typesetting source generator.

use vstd::prelude::*;
use vstd::string::*;

use crate::text::{chars_of, string_of, subvec};

verus! {

/// The mathematical content of an [`Equation`]: its view in contracts.
pub struct EquationModel {
    pub active: bool,
    pub name: Seq<char>,
    pub body: Seq<char>,
}

/// A mathematical equation entry.
#[derive(Debug, Clone)]
pub struct Equation {
    /// Whether to render this equation
    pub active: bool,
    /// Filename-safe name for output files
    pub name: String,
    /// LaTeX body of the equation
    pub body: String,
}

impl View for Equation {
    type V = EquationModel;

    open spec fn view(&self) -> EquationModel {
        EquationModel { active: self.active, name: self.name@, body: self.body@ }
    }
}

/// Whether `c` may appear in a sanitized name: ASCII letters, digits,
/// underscore and dot.
pub open spec fn is_safe_char(c: char) -> bool {
    ('A' <= c && c <= 'Z') || ('a' <= c && c <= 'z') || ('0' <= c && c <= '9') || c == '_' || c
        == '.'
}

/// Every character outside the safe set replaced with an underscore.
pub open spec fn replaced_chars(s: Seq<char>) -> Seq<char> {
    s.map_values(
        |c: char|
            if is_safe_char(c) {
                c
            } else {
                '_'
            },
    )
}

/// The sanitized form of a raw name: unsafe characters become underscores,
/// and an empty name falls back to the literal `default_equation`.
pub open spec fn spec_sanitize(s: Seq<char>) -> Seq<char> {
    if s.len() == 0 {
        "default_equation"@
    } else {
        replaced_chars(s)
    }
}

/// Sanitization is idempotent: sanitizing a sanitized name changes nothing.
pub proof fn lemma_sanitize_idempotent(s: Seq<char>)
    ensures
        spec_sanitize(spec_sanitize(s)) == spec_sanitize(s),
{
    reveal_strlit("default_equation");
    if s.len() == 0 {
        assert(replaced_chars("default_equation"@) =~= "default_equation"@);
    } else {
        assert(replaced_chars(replaced_chars(s)) =~= replaced_chars(s));
    }
}

fn is_safe(c: char) -> (r: bool)
    ensures
        r == is_safe_char(c),
{
    ('A' <= c && c <= 'Z') || ('a' <= c && c <= 'z') || ('0' <= c && c <= '9') || c == '_' || c
        == '.'
}

/// The position of the first character at or after `from` that is not `#`.
pub open spec fn skip_hashes(s: Seq<char>, from: int) -> int
    decreases s.len() - from,
{
    if !(0 <= from < s.len()) {
        from
    } else if s[from] == '#' {
        skip_hashes(s, from + 1)
    } else {
        from
    }
}

/// The color string with its leading `#` marks removed, as
/// `str::trim_start_matches('#')` removes them.
pub open spec fn spec_strip_hash(s: Seq<char>) -> Seq<char> {
    s.subrange(skip_hashes(s, 0), s.len() as int)
}

/// The full typesetting source document for a body set in the given color:
/// a fixed standalone template around the color code and the display math.
pub open spec fn spec_latex_source(color: Seq<char>, body: Seq<char>) -> Seq<char> {
    "\\documentclass[border=1pt]{standalone}\n\\usepackage{amsmath}\n\\usepackage{xfrac}\n\\usepackage{gfsneohellenicot}\n\\usepackage{xcolor}\n\\definecolor{equationcolor}{HTML}{"@
        + spec_strip_hash(color)
        + "}\n\\begin{document}\n\\setbox0\\hbox{\\Large \\textcolor{equationcolor}{$"@ + body
        + "$}}\n\\dimen0=12mm\n\\ifdim\\ht0<\\dimen0 \\ht0=\\dimen0 \\fi\n\\ifdim\\dp0<5mm \\dp0=5mm \\fi\n\\box0\n\\end{document}"@
}

impl Equation {
    /// Construct a new equation, sanitizing the name.
    pub fn new(active: bool, name: &str, body: &str) -> (eq: Equation)
        ensures
            eq@.active == active,
            eq@.name == spec_sanitize(name@),
            eq@.body == body@,
    {
        let sanitized = Equation::sanitize_filename(name);
        Equation { active, name: sanitized, body: body.to_owned() }
    }

    /// Replace characters outside `[A-Za-z0-9_.]` with underscores; an empty
    /// name becomes `default_equation`.
    pub fn sanitize_filename(name: &str) -> (r: String)
        ensures
            r@ == spec_sanitize(name@),
    {
        let v = chars_of(name);
        if v.len() == 0 {
            return String::from_str("default_equation");
        }
        let mut out: Vec<char> = Vec::new();
        let mut i: usize = 0;
        while i < v.len()
            invariant
                i <= v@.len(),
                out@ == replaced_chars(v@).subrange(0, i as int),
            decreases v@.len() - i,
        {
            let c = v[i];
            if is_safe(c) {
                out.push(c);
            } else {
                out.push('_');
            }
            proof {
                assert(replaced_chars(v@).subrange(0, i as int).push(
                    replaced_chars(v@)[i as int],
                ) =~= replaced_chars(v@).subrange(0, i as int + 1));
            }
            i = i + 1;
        }
        proof {
            assert(out@ =~= replaced_chars(v@));
        }
        string_of(&out)
    }

    /// Generate the typesetting source for this equation in the given color.
    pub fn generate_latex(&self, color: &str) -> (r: String)
        ensures
            r@ == spec_latex_source(color@, self@.body),
    {
        let cv = chars_of(color);
        let mut i: usize = 0;
        while i < cv.len() && cv[i] == '#'
            invariant
                i <= cv@.len(),
                skip_hashes(cv@, 0) == skip_hashes(cv@, i as int),
            decreases cv@.len() - i,
        {
            i = i + 1;
        }
        let code = subvec(&cv, i, cv.len());
        let code_str = string_of(&code);
        let mut out = String::from_str(
            "\\documentclass[border=1pt]{standalone}\n\\usepackage{amsmath}\n\\usepackage{xfrac}\n\\usepackage{gfsneohellenicot}\n\\usepackage{xcolor}\n\\definecolor{equationcolor}{HTML}{",
        );
        out.append(code_str.as_str());
        out.append("}\n\\begin{document}\n\\setbox0\\hbox{\\Large \\textcolor{equationcolor}{$");
        out.append(self.body.as_str());
        out.append(
            "$}}\n\\dimen0=12mm\n\\ifdim\\ht0<\\dimen0 \\ht0=\\dimen0 \\fi\n\\ifdim\\dp0<5mm \\dp0=5mm \\fi\n\\box0\n\\end{document}",
        );
        proof {
            assert(out@ =~= spec_latex_source(color@, self@.body));
        }
        out
    }
}

} // verus!
