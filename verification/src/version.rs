//! Semantic versions of the `major.minor.patch` form: parsing, canonical
//! rendering, ordering, and the bump used when a release is prepared.

use vstd::prelude::*;
use crate::text::{
    all_digits, digits_value, is_digit, nat_digits, parse_digits_u64, str_to_chars, u64_to_string,
};

verus! {

/// A `major.minor.patch` version. Pre-release and build metadata are never
/// carried: release headings hold bare numeric versions.
#[derive(Debug, Clone, Copy, PartialEq, Eq, Hash, Structural)]
pub struct Version {
    pub major: u64,
    pub minor: u64,
    pub patch: u64,
}

/// The canonical rendering of a version: the three numbers in shortest
/// decimal form, joined by dots.
pub open spec fn spec_version_string(v: Version) -> Seq<char> {
    nat_digits(v.major as int) + "."@ + nat_digits(v.minor as int) + "."@ + nat_digits(
        v.patch as int,
    )
}

/// Lexicographic order on (major, minor, patch), the order of semantic
/// versioning for versions without pre-release parts.
pub open spec fn spec_version_le(a: Version, b: Version) -> bool {
    if a.major != b.major {
        a.major < b.major
    } else if a.minor != b.minor {
        a.minor < b.minor
    } else {
        a.patch <= b.patch
    }
}

/// A digit run that denotes a number the way this library accepts one: not
/// empty, no leading zero, and small enough for a `u64`.
pub open spec fn spec_numeric_token(s: Seq<char>) -> bool {
    &&& s.len() > 0
    &&& all_digits(s)
    &&& (s.len() > 1 ==> s[0] != '0')
    &&& digits_value(s) <= u64::MAX
}

impl Version {
    /// The canonical `major.minor.patch` string of this version.
    pub fn to_text(&self) -> (r: String)
        ensures
            r@ == spec_version_string(*self),
    {
        let mut out = u64_to_string(self.major);
        out.append(".");
        out.append(u64_to_string(self.minor).as_str());
        out.append(".");
        out.append(u64_to_string(self.patch).as_str());
        proof {
            assert(out@ =~= spec_version_string(*self));
        }
        out
    }

    /// Whether this version is at most `other`.
    pub fn le(&self, other: &Version) -> (r: bool)
        ensures
            r == spec_version_le(*self, *other),
    {
        if self.major != other.major {
            self.major < other.major
        } else if self.minor != other.minor {
            self.minor < other.minor
        } else {
            self.patch <= other.patch
        }
    }

    /// Parses a full `major.minor.patch` string. `None` when the text is not
    /// three dot-separated numeric tokens, a token has a leading zero, or a
    /// number does not fit.
    pub fn parse(s: &str) -> (r: Option<Version>)
        ensures
            match r {
                Some(v) => spec_parse_version(s@) == Some(v),
                None => spec_parse_version(s@) is None,
            },
    {
        let chars = str_to_chars(s);
        let i1 = digit_run_end(&chars, 0);
        if i1 == chars.len() || chars[i1] != '.' {
            return None;
        }
        let i2 = digit_run_end(&chars, i1 + 1);
        if i2 == chars.len() || chars[i2] != '.' {
            return None;
        }
        let i3 = digit_run_end(&chars, i2 + 1);
        if i3 != chars.len() {
            return None;
        }
        proof {
            lemma_digit_run_end(chars@, 0);
            lemma_digit_run_end(chars@, i1 as int + 1);
            lemma_digit_run_end(chars@, i2 as int + 1);
        }
        match version_from_runs(&chars, 0, i1, i1 + 1, i2, i2 + 1, i3) {
            Ok(v) => Some(v),
            Err(_) => None,
        }
    }
}

/// Where the run of ASCII digits starting at `from` ends.
pub open spec fn spec_digit_run_end(s: Seq<char>, from: int) -> int
    decreases s.len() - from,
{
    if from < 0 || from >= s.len() || !is_digit(s[from]) {
        from
    } else {
        spec_digit_run_end(s, from + 1)
    }
}

pub proof fn lemma_digit_run_end(s: Seq<char>, from: int)
    requires
        0 <= from <= s.len(),
    ensures
        from <= spec_digit_run_end(s, from) <= s.len(),
        forall|j: int| from <= j < spec_digit_run_end(s, from) ==> is_digit(#[trigger] s[j]),
        spec_digit_run_end(s, from) < s.len() ==> !is_digit(s[spec_digit_run_end(s, from)]),
    decreases s.len() - from,
{
    if from < s.len() && is_digit(s[from]) {
        lemma_digit_run_end(s, from + 1);
    }
}

/// A digit run's end is exactly where the digits stop.
pub proof fn lemma_digit_run_end_exact(h: Seq<char>, p: int, e: int)
    requires
        0 <= p <= e <= h.len(),
        forall|j: int| p <= j < e ==> is_digit(#[trigger] h[j]),
        e < h.len() ==> !is_digit(h[e]),
    ensures
        spec_digit_run_end(h, p) == e,
    decreases e - p,
{
    if p < e {
        lemma_digit_run_end_exact(h, p + 1, e);
    }
}

/// Finds the end of the digit run starting at `from`.
pub fn digit_run_end(chars: &Vec<char>, from: usize) -> (r: usize)
    requires
        from <= chars@.len(),
    ensures
        r == spec_digit_run_end(chars@, from as int),
        from <= r <= chars@.len(),
{
    let mut i: usize = from;
    while i < chars.len() && chars[i] >= '0' && chars[i] <= '9'
        invariant
            from <= i <= chars@.len(),
            spec_digit_run_end(chars@, from as int) == spec_digit_run_end(chars@, i as int),
        decreases chars@.len() - i,
    {
        i = i + 1;
    }
    i
}

/// How a version token can fail to denote a number.
pub open spec fn spec_run_ok(s: Seq<char>, from: int, to: int) -> bool {
    spec_numeric_token(s.subrange(from, to))
}

/// The parse of a whole string as `major.minor.patch`.
pub open spec fn spec_parse_version(s: Seq<char>) -> Option<Version> {
    let i1 = spec_digit_run_end(s, 0);
    if i1 == s.len() || s[i1] != '.' {
        None
    } else {
        let i2 = spec_digit_run_end(s, i1 + 1);
        if i2 == s.len() || s[i2] != '.' {
            None
        } else {
            let i3 = spec_digit_run_end(s, i2 + 1);
            if i3 != s.len() {
                None
            } else {
                spec_version_from_runs(s, 0, i1, i1 + 1, i2, i2 + 1, i3)
            }
        }
    }
}

/// The version denoted by three digit runs of `s`, when each run is a
/// numeric token.
pub open spec fn spec_version_from_runs(
    s: Seq<char>,
    a0: int,
    a1: int,
    b0: int,
    b1: int,
    c0: int,
    c1: int,
) -> Option<Version> {
    if spec_run_ok(s, a0, a1) && spec_run_ok(s, b0, b1) && spec_run_ok(s, c0, c1) {
        Some(
            Version {
                major: digits_value(s.subrange(a0, a1)) as u64,
                minor: digits_value(s.subrange(b0, b1)) as u64,
                patch: digits_value(s.subrange(c0, c1)) as u64,
            },
        )
    } else {
        None
    }
}

/// Reads a version out of three digit runs, `Err` with the run bounds of the
/// first bad token when one is empty, has a leading zero, or overflows.
pub fn version_from_runs(
    chars: &Vec<char>,
    a0: usize,
    a1: usize,
    b0: usize,
    b1: usize,
    c0: usize,
    c1: usize,
) -> (r: Result<Version, ()>)
    requires
        a0 <= a1 <= chars@.len(),
        b0 <= b1 <= chars@.len(),
        c0 <= c1 <= chars@.len(),
        all_digits(chars@.subrange(a0 as int, a1 as int)),
        all_digits(chars@.subrange(b0 as int, b1 as int)),
        all_digits(chars@.subrange(c0 as int, c1 as int)),
    ensures
        match r {
            Ok(v) => spec_version_from_runs(
                chars@,
                a0 as int,
                a1 as int,
                b0 as int,
                b1 as int,
                c0 as int,
                c1 as int,
            ) == Some(v),
            Err(_) => spec_version_from_runs(
                chars@,
                a0 as int,
                a1 as int,
                b0 as int,
                b1 as int,
                c0 as int,
                c1 as int,
            ) is None,
        },
{
    let major = match run_value(chars, a0, a1) {
        Some(v) => v,
        None => {
            return Err(());
        },
    };
    let minor = match run_value(chars, b0, b1) {
        Some(v) => v,
        None => {
            return Err(());
        },
    };
    let patch = match run_value(chars, c0, c1) {
        Some(v) => v,
        None => {
            return Err(());
        },
    };
    Ok(Version { major, minor, patch })
}

/// The value of one numeric token, or `None` when the run is not a numeric
/// token.
fn run_value(chars: &Vec<char>, from: usize, to: usize) -> (r: Option<u64>)
    requires
        from <= to <= chars@.len(),
        all_digits(chars@.subrange(from as int, to as int)),
    ensures
        match r {
            Some(v) => spec_numeric_token(chars@.subrange(from as int, to as int)) && v as int
                == digits_value(chars@.subrange(from as int, to as int)),
            None => !spec_numeric_token(chars@.subrange(from as int, to as int)),
        },
{
    if from == to {
        return None;
    }
    if to - from > 1 && chars[from] == '0' {
        return None;
    }
    parse_digits_u64(chars, from, to)
}

/// Which part of a version a bump raises.
#[derive(Debug, Clone, Copy, PartialEq, Eq, Structural)]
pub enum BumpCoordinate {
    Major,
    Minor,
    Patch,
}

/// The version after a bump: the bumped part is raised by one and the parts
/// below it reset to zero.
pub fn get_next_version(current_version: &Version, bump: &BumpCoordinate) -> (r: Version)
    requires
        current_version.major < u64::MAX,
        current_version.minor < u64::MAX,
        current_version.patch < u64::MAX,
    ensures
        r == (match bump {
            BumpCoordinate::Major => Version {
                major: (current_version.major + 1) as u64,
                minor: 0u64,
                patch: 0u64,
            },
            BumpCoordinate::Minor => Version {
                major: current_version.major,
                minor: (current_version.minor + 1) as u64,
                patch: 0u64,
            },
            BumpCoordinate::Patch => Version {
                major: current_version.major,
                minor: current_version.minor,
                patch: (current_version.patch + 1) as u64,
            },
        }),
{
    match bump {
        BumpCoordinate::Major => Version { major: current_version.major + 1, minor: 0, patch: 0 },
        BumpCoordinate::Minor => Version {
            major: current_version.major,
            minor: current_version.minor + 1,
            patch: 0,
        },
        BumpCoordinate::Patch => Version {
            major: current_version.major,
            minor: current_version.minor,
            patch: current_version.patch + 1,
        },
    }
}

} // verus!
