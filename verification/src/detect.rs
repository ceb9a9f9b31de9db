//! Format detection: classifies an input file by the extension of its path.

use vstd::prelude::*;

use crate::text::{chars_of, subvec};

verus! {

/// Supported input file types.
#[derive(Debug)]
pub enum Filetype {
    /// CSV with header [active,equation,name]
    Csv,
    /// Markdown: $$...$$ blocks, optional %%yes%%/%%no%% and %%name%% tags
    Markdown,
    /// Unknown or unsupported extension
    Unknown,
}

/// The last position strictly before `upto` that holds `c`.
pub open spec fn last_index_of(s: Seq<char>, c: char, upto: int) -> Option<int>
    decreases upto,
{
    if upto <= 0 || upto > s.len() {
        None
    } else if s[upto - 1] == c {
        Some(upto - 1)
    } else {
        last_index_of(s, c, upto - 1)
    }
}

/// The extension of a path written with `/` separators: the part of the last
/// path segment after its final dot. A dot that begins the segment does not
/// count, so a name like `.profile` has no extension.
pub open spec fn spec_extension(p: Seq<char>) -> Option<Seq<char>> {
    let fstart: int = match last_index_of(p, '/', p.len() as int) {
        Some(i) => i + 1,
        None => 0,
    };
    match last_index_of(p, '.', p.len() as int) {
        Some(d) => if d > fstart {
            Some(p.subrange(d + 1, p.len() as int))
        } else {
            None
        },
        None => None,
    }
}

/// The classification of a path: `csv` is CSV, `md` and `markdown` are
/// Markdown, anything else (including no extension) is unknown. The match on
/// the extension is case-sensitive.
pub open spec fn spec_detect(p: Seq<char>) -> Filetype {
    match spec_extension(p) {
        Some(e) => if e == "csv"@ {
            Filetype::Csv
        } else if e == "md"@ || e == "markdown"@ {
            Filetype::Markdown
        } else {
            Filetype::Unknown
        },
        None => Filetype::Unknown,
    }
}

/// The classification is a function of the extension alone: two paths with
/// the same extension are classified alike.
pub proof fn lemma_detect_pure_in_extension(p1: Seq<char>, p2: Seq<char>)
    requires
        spec_extension(p1) == spec_extension(p2),
    ensures
        spec_detect(p1) == spec_detect(p2),
{
}

/// The last occurrence of `c` in `v`, by a scan from the end.
fn last_index_in(v: &Vec<char>, c: char) -> (r: Option<usize>)
    ensures
        match r {
            Some(i) => i < v@.len() && last_index_of(v@, c, v@.len() as int) == Some(i as int),
            None => last_index_of(v@, c, v@.len() as int) is None,
        },
{
    let mut j: usize = v.len();
    while j > 0 && v[j - 1] != c
        invariant
            j <= v@.len(),
            last_index_of(v@, c, v@.len() as int) == last_index_of(v@, c, j as int),
        decreases j,
    {
        j = j - 1;
    }
    if j > 0 {
        Some(j - 1)
    } else {
        None
    }
}

/// Determine the file type from the path's extension.
pub fn detect_file_type(path: &str) -> (t: Filetype)
    ensures
        t == spec_detect(path@),
{
    let v = chars_of(path);
    let n = v.len();
    let fstart: usize = match last_index_in(&v, '/') {
        Some(i) => i + 1,
        None => 0,
    };
    match last_index_in(&v, '.') {
        Some(d) => {
            if d > fstart {
                let ext = subvec(&v, d + 1, n);
                proof {
                    reveal_strlit("csv");
                    reveal_strlit("md");
                    reveal_strlit("markdown");
                }
                if ext.len() == 3 && ext[0] == 'c' && ext[1] == 's' && ext[2] == 'v' {
                    proof {
                        assert(ext@ =~= "csv"@);
                    }
                    Filetype::Csv
                } else if ext.len() == 2 && ext[0] == 'm' && ext[1] == 'd' {
                    proof {
                        assert(ext@ =~= "md"@);
                    }
                    Filetype::Markdown
                } else if ext.len() == 8 && ext[0] == 'm' && ext[1] == 'a' && ext[2] == 'r' && ext[3]
                    == 'k' && ext[4] == 'd' && ext[5] == 'o' && ext[6] == 'w' && ext[7] == 'n' {
                    proof {
                        assert(ext@ =~= "markdown"@);
                    }
                    Filetype::Markdown
                } else {
                    proof {
                        if ext@ == "csv"@ {
                            assert(ext@[0] == 'c' && ext@[1] == 's' && ext@[2] == 'v');
                        }
                        if ext@ == "md"@ {
                            assert(ext@[0] == 'm' && ext@[1] == 'd');
                        }
                        if ext@ == "markdown"@ {
                            assert(ext@[0] == 'm' && ext@[1] == 'a' && ext@[2] == 'r' && ext@[3]
                                == 'k' && ext@[4] == 'd' && ext@[5] == 'o' && ext@[6] == 'w'
                                && ext@[7] == 'n');
                        }
                    }
                    Filetype::Unknown
                }
            } else {
                Filetype::Unknown
            }
        },
        None => Filetype::Unknown,
    }
}

} // verus!
