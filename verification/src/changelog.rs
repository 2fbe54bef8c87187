//! The changelog document model: parsing the scanned blocks of a changelog's
//! Markdown text into an optional unreleased body and an ordered map of
//! dated, versioned release entries.
//!
//! A depth-2 heading opens a section; a depth-1 heading closes it; deeper
//! headings and all other blocks belong to the open section's body, tracked
//! as the span from the first such block to the last. Link-reference
//! definitions are dropped: the reference link block is regenerated when the
//! document is written. A section heading either names the unreleased
//! section, or names a release as a bracketed-or-bare `major.minor.patch`
//! followed somewhere later by a `YYYY-MM-DD` or `YYYY/MM/DD` date, or is
//! ignored together with its body.

use vstd::prelude::*;
use crate::date::{spec_valid_date, Date};
use crate::mdscan::{block_repr, md_scan, scan_markdown, MdBlock};
use crate::releases::{
    entry_repr, item_matches, lemma_insert_distinct, lemma_key_index, new_release_map,
    release_items, release_map_insert, spec_distinct_keys, spec_has_key, spec_insert,
    spec_key_index, ReleaseEntry,
};
use crate::text::{
    all_digits, digits_value, is_digit, spec_trim, str_to_chars, trim_str, view_opt,
};
use crate::version::{
    digit_run_end, lemma_digit_run_end, spec_digit_run_end, spec_version_from_runs,
    spec_version_string, version_from_runs, Version,
};

verus! {

/// One top-level block, in its plain shape.
pub type BlockItem = (u8, u8, Seq<char>, Option<(usize, usize)>);

/// One release item of the model: key, version, date, body.
pub type RelItem = (Seq<char>, (u64, u64, u64), (u32, u32, u32), Seq<char>);

/// A parsed changelog: the pending unreleased body, when one exists and is
/// not empty, and the release entries keyed by their canonical version
/// strings, ordered as the source document orders them (newest first).
#[derive(Debug, PartialEq, Eq)]
pub struct Changelog {
    pub unreleased: Option<String>,
    pub releases: indexmap::IndexMap<String, ReleaseEntry>,
}

/// Why a changelog text was rejected.
#[derive(Debug, Clone, PartialEq, Eq)]
pub enum ChangelogError {
    /// The Markdown parse yielded no document root.
    NoRootNode,
    /// The Markdown parser rejected the text, with its message.
    Parse(String),
    /// A release heading's version token is not a well-formed
    /// `major.minor.patch`, with the offending token.
    ParseVersion(String),
    /// A release heading's year is not a well-formed number.
    ParseReleaseEntryYear(String),
    /// A release heading's month is not a well-formed number.
    ParseReleaseEntryMonth(String),
    /// A release heading's day is not a well-formed number.
    ParseReleaseEntryDay(String),
    /// The date's components do not name an existing calendar date.
    InvalidReleaseDate,
    /// The date resolves to more than one instant. Dates are read at UTC
    /// midnight, where this cannot happen; the variant stands for
    /// completeness.
    AmbiguousReleaseDate,
}

/// A parse error, in its plain shape.
pub enum SpecParseErr {
    ParseVersion(Seq<char>),
    InvalidReleaseDate,
}

/// Whether an error value carries the given plain error.
pub open spec fn err_matches(e: ChangelogError, m: SpecParseErr) -> bool {
    match m {
        SpecParseErr::ParseVersion(t) => e matches ChangelogError::ParseVersion(s) && s@ == t,
        SpecParseErr::InvalidReleaseDate => e is InvalidReleaseDate,
    }
}

// ---------------------------------------------------------------------------
// Section attribution: which heading each body block belongs to.
// ---------------------------------------------------------------------------

/// The section heading in effect after one block: a depth-2 heading opens its
/// own section, a shallower heading closes the section, and anything else
/// leaves it.
pub open spec fn step_header(cur: Option<Seq<char>>, b: BlockItem) -> Option<Seq<char>> {
    if b.0 == 0u8 {
        if b.1 == 2u8 {
            Some(b.2)
        } else if b.1 < 2u8 {
            None
        } else {
            cur
        }
    } else {
        cur
    }
}

/// The section heading in effect when block `i` is read.
pub open spec fn current_header_at(blocks: Seq<BlockItem>, i: int) -> Option<Seq<char>>
    decreases i,
{
    if i <= 0 {
        None
    } else {
        step_header(current_header_at(blocks, i - 1), blocks[i - 1])
    }
}

/// A block that belongs to the open section's body: a heading deeper than 2,
/// or any non-heading block other than a link-reference definition.
pub open spec fn is_body_block(b: BlockItem) -> bool {
    (b.0 == 0u8 && b.1 > 2u8) || b.0 == 2u8
}

/// The spans of the body blocks attributed to heading text `h` among the
/// first `n` blocks. Sections whose headings have equal text pool their
/// blocks.
pub open spec fn spans_for_upto(blocks: Seq<BlockItem>, h: Seq<char>, n: int) -> Seq<
    Option<(usize, usize)>,
>
    decreases n,
{
    if n <= 0 {
        Seq::empty()
    } else {
        let prev = spans_for_upto(blocks, h, n - 1);
        if is_body_block(blocks[n - 1]) && current_header_at(blocks, n - 1) == Some(h) {
            prev.push(blocks[n - 1].3)
        } else {
            prev
        }
    }
}

/// The spans of all body blocks attributed to heading text `h`.
pub open spec fn spans_for(blocks: Seq<BlockItem>, h: Seq<char>) -> Seq<Option<(usize, usize)>> {
    spans_for_upto(blocks, h, blocks.len() as int)
}

/// The depth-2 heading texts among the first `n` blocks, in order, duplicates
/// kept.
pub open spec fn headers_upto(blocks: Seq<BlockItem>, n: int) -> Seq<Seq<char>>
    decreases n,
{
    if n <= 0 {
        Seq::empty()
    } else {
        let prev = headers_upto(blocks, n - 1);
        if blocks[n - 1].0 == 0u8 && blocks[n - 1].1 == 2u8 {
            prev.push(blocks[n - 1].2)
        } else {
            prev
        }
    }
}

/// All depth-2 heading texts, in order.
pub open spec fn headers_of(blocks: Seq<BlockItem>) -> Seq<Seq<char>> {
    headers_upto(blocks, blocks.len() as int)
}

/// The body text of the section with heading text `h`: the source text from
/// the first attributed block's start to the last attributed block's end,
/// trimmed. Empty when the section has no body blocks, when a block carries
/// no span, or when the spans do not name a range of the text.
pub open spec fn body_for(text: Seq<char>, blocks: Seq<BlockItem>, h: Seq<char>) -> Seq<char> {
    let ns = spans_for(blocks, h);
    if ns.len() == 0 {
        Seq::empty()
    } else {
        match (ns[0], ns.last()) {
            (Some(s), Some(e)) => {
                if s.0 <= e.1 && e.1 <= text.len() {
                    spec_trim(text.subrange(s.0 as int, e.1 as int))
                } else {
                    Seq::empty()
                }
            },
            _ => Seq::empty(),
        }
    }
}

// ---------------------------------------------------------------------------
// Heading classification.
// ---------------------------------------------------------------------------

/// Whether `c` is the letter `l` in either case; `l` is a lowercase letter.
pub open spec fn eqi(c: char, l: char) -> bool {
    c == l || c as int == l as int - 32
}

/// Whether `h` spells "unreleased", case-insensitively, starting at `i` .
pub open spec fn unreleased_word_at(h: Seq<char>, i: int) -> bool {
    &&& i + 10 <= h.len()
    &&& eqi(h[i], 'u')
    &&& eqi(h[i + 1], 'n')
    &&& eqi(h[i + 2], 'r')
    &&& eqi(h[i + 3], 'e')
    &&& eqi(h[i + 4], 'l')
    &&& eqi(h[i + 5], 'e')
    &&& eqi(h[i + 6], 'a')
    &&& eqi(h[i + 7], 's')
    &&& eqi(h[i + 8], 'e')
    &&& eqi(h[i + 9], 'd')
}

/// A heading that names the unreleased section: the word "unreleased" in any
/// case, with an optional leading `[` and an optional trailing `]`, and
/// nothing else.
pub open spec fn is_unreleased_heading(h: Seq<char>) -> bool {
    let i: int = if h.len() > 0 && h[0] == '[' {
        1
    } else {
        0
    };
    &&& unreleased_word_at(h, i)
    &&& (h.len() == i + 10 || (h.len() == i + 11 && h[i + 10] == ']'))
}

/// Whether a `YYYY-MM-DD` or `YYYY/MM/DD` date shape starts at `q`.
pub open spec fn date_at(h: Seq<char>, q: int) -> bool {
    &&& q + 10 <= h.len()
    &&& is_digit(h[q])
    &&& is_digit(h[q + 1])
    &&& is_digit(h[q + 2])
    &&& is_digit(h[q + 3])
    &&& (h[q + 4] == '-' || h[q + 4] == '/')
    &&& is_digit(h[q + 5])
    &&& is_digit(h[q + 6])
    &&& (h[q + 7] == '-' || h[q + 7] == '/')
    &&& is_digit(h[q + 8])
    &&& is_digit(h[q + 9])
}

/// The first position at or after `q` where a date shape starts.
pub open spec fn find_date(h: Seq<char>, q: int) -> Option<int>
    decreases h.len() - q,
{
    if q < 0 || q + 10 > h.len() {
        None
    } else if date_at(h, q) {
        Some(q)
    } else {
        find_date(h, q + 1)
    }
}

/// The release shape of a heading: an optional `[`, three non-empty digit
/// runs joined by dots, an optional `]`, and the first date shape anywhere
/// later. The result gives the version runs' bounds and the date's position.
pub open spec fn version_match(h: Seq<char>) -> Option<(int, int, int, int)> {
    let p0: int = if h.len() > 0 && h[0] == '[' {
        1
    } else {
        0
    };
    let a1 = spec_digit_run_end(h, p0);
    if a1 == p0 || a1 >= h.len() || h[a1] != '.' {
        None
    } else {
        let b1 = spec_digit_run_end(h, a1 + 1);
        if b1 == a1 + 1 || b1 >= h.len() || h[b1] != '.' {
            None
        } else {
            let c1 = spec_digit_run_end(h, b1 + 1);
            if c1 == b1 + 1 {
                None
            } else {
                let after: int = if c1 < h.len() && h[c1] == ']' {
                    c1 + 1
                } else {
                    c1
                };
                match find_date(h, after) {
                    Some(q) => Some((p0, a1, b1, q)),
                    None => None,
                }
            }
        }
    }
}

/// What a classified release heading contributes: a release item, or the
/// error its version or date raises. `body` becomes the item's body.
pub open spec fn release_for(h: Seq<char>, body: Seq<char>) -> Result<
    Option<RelItem>,
    SpecParseErr,
> {
    match version_match(h) {
        None => Ok(None),
        Some((p0, a1, b1, q)) => {
            let c1 = spec_digit_run_end(h, b1 + 1);
            match spec_version_from_runs(h, p0, a1, a1 + 1, b1, b1 + 1, c1) {
                None => Err(SpecParseErr::ParseVersion(h.subrange(p0, c1))),
                Some(v) => {
                    let y = digits_value(h.subrange(q, q + 4));
                    let m = digits_value(h.subrange(q + 5, q + 7));
                    let d = digits_value(h.subrange(q + 8, q + 10));
                    if spec_valid_date(y, m, d) {
                        Ok(
                            Some(
                                (
                                    spec_version_string(v),
                                    (v.major, v.minor, v.patch),
                                    (y as u32, m as u32, d as u32),
                                    body,
                                ),
                            ),
                        )
                    } else {
                        Err(SpecParseErr::InvalidReleaseDate)
                    }
                },
            }
        },
    }
}

// ---------------------------------------------------------------------------
// Date-format tolerance.
// ---------------------------------------------------------------------------

/// A date separator: the two accepted date forms differ only in these.
pub open spec fn is_date_sep(c: char) -> bool {
    c == '-' || c == '/'
}

/// Two heading texts that agree everywhere, except that either may write one
/// date separator where the other writes the other one.
pub open spec fn sep_equivalent(h1: Seq<char>, h2: Seq<char>) -> bool {
    &&& h1.len() == h2.len()
    &&& forall|i: int|
        0 <= i < h1.len() ==> h1[i] == h2[i] || (is_date_sep(#[trigger] h1[i]) && is_date_sep(
            #[trigger] h2[i],
        ))
}

proof fn lemma_sep_equivalent_digit_run(h1: Seq<char>, h2: Seq<char>, p: int)
    requires
        sep_equivalent(h1, h2),
    ensures
        spec_digit_run_end(h1, p) == spec_digit_run_end(h2, p),
    decreases h1.len() - p,
{
    if 0 <= p < h1.len() {
        assert(is_digit(h1[p]) == is_digit(h2[p]));
        if is_digit(h1[p]) {
            lemma_sep_equivalent_digit_run(h1, h2, p + 1);
        }
    }
}

proof fn lemma_sep_equivalent_find_date(h1: Seq<char>, h2: Seq<char>, q: int)
    requires
        sep_equivalent(h1, h2),
    ensures
        find_date(h1, q) == find_date(h2, q),
    decreases h1.len() - q,
{
    if q >= 0 && q + 10 <= h1.len() {
        assert(date_at(h1, q) == date_at(h2, q)) by {
            assert(forall|j: int|
                0 <= j < h1.len() ==> is_digit(#[trigger] h1[j]) == is_digit(h2[j]));
            assert((h1[q + 4] == '-' || h1[q + 4] == '/') == (h2[q + 4] == '-' || h2[q + 4]
                == '/'));
            assert((h1[q + 7] == '-' || h1[q + 7] == '/') == (h2[q + 7] == '-' || h2[q + 7]
                == '/'));
        }
        if !date_at(h1, q) {
            lemma_sep_equivalent_find_date(h1, h2, q + 1);
        }
    }
}

/// Date-format tolerance: two headings that differ only in their dates'
/// separators classify identically — both name the unreleased section, or
/// both name the same release with the same version and the same date (or
/// raise the same error), or both are ignored. Two texts whose scanned
/// sections differ only so therefore parse to the same document.
pub proof fn lemma_date_separator_tolerance(h1: Seq<char>, h2: Seq<char>, body: Seq<char>)
    requires
        sep_equivalent(h1, h2),
    ensures
        is_unreleased_heading(h1) == is_unreleased_heading(h2),
        version_match(h1) == version_match(h2),
        release_for(h1, body) == release_for(h2, body),
{
    assert(forall|j: int| 0 <= j < h1.len() ==> is_digit(#[trigger] h1[j]) == is_digit(h2[j]));
    assert forall|j: int| 0 <= j < h1.len() && !is_date_sep(#[trigger] h1[j]) implies h1[j]
        == h2[j] by {}
    assert forall|j: int| 0 <= j < h1.len() && !is_date_sep(#[trigger] h2[j]) implies h1[j]
        == h2[j] by {}
    // The unreleased shape reads only brackets and letters, never separators.
    assert(is_unreleased_heading(h1) == is_unreleased_heading(h2)) by {
        if h1.len() > 0 {
            assert((h1[0] == '[') == (h2[0] == '['));
        }
        let i: int = if h1.len() > 0 && h1[0] == '[' {
            1
        } else {
            0
        };
        assert(unreleased_word_at(h1, i) == unreleased_word_at(h2, i)) by {
            if i + 10 <= h1.len() {
                assert(forall|k: int| i <= k < i + 10 ==> h1[k] == h2[k] || (is_date_sep(
                    #[trigger] h1[k],
                ) && is_date_sep(h2[k])));
            }
        }
        if unreleased_word_at(h1, i) && i + 10 < h1.len() {
            assert((h1[i + 10] == ']') == (h2[i + 10] == ']'));
        }
    }
    // The release shape reads digit runs, dots, brackets, and the date.
    lemma_sep_equivalent_digit_run(h1, h2, 0);
    lemma_sep_equivalent_digit_run(h1, h2, 1);
    if h1.len() > 0 {
        assert((h1[0] == '[') == (h2[0] == '['));
    }
    let p0: int = if h1.len() > 0 && h1[0] == '[' {
        1
    } else {
        0
    };
    let a1 = spec_digit_run_end(h1, p0);
    if p0 <= h1.len() {
        lemma_digit_run_end(h1, p0);
    }
    if a1 == p0 || a1 >= h1.len() || h1[a1] != '.' {
        if p0 <= a1 < h1.len() {
            assert((h1[a1] == '.') == (h2[a1] == '.'));
        }
        assert(version_match(h1) is None && version_match(h2) is None);
    } else {
        assert((h1[a1] == '.') == (h2[a1] == '.'));
        lemma_sep_equivalent_digit_run(h1, h2, a1 + 1);
        let b1 = spec_digit_run_end(h1, a1 + 1);
        lemma_digit_run_end(h1, a1 + 1);
        if b1 == a1 + 1 || b1 >= h1.len() || h1[b1] != '.' {
            if b1 < h1.len() {
                assert((h1[b1] == '.') == (h2[b1] == '.'));
            }
            assert(version_match(h1) is None && version_match(h2) is None);
        } else {
            assert((h1[b1] == '.') == (h2[b1] == '.'));
            lemma_sep_equivalent_digit_run(h1, h2, b1 + 1);
            let c1 = spec_digit_run_end(h1, b1 + 1);
            lemma_digit_run_end(h1, b1 + 1);
            if c1 == b1 + 1 {
                assert(version_match(h1) is None && version_match(h2) is None);
            } else {
                if c1 < h1.len() {
                    assert((h1[c1] == ']') == (h2[c1] == ']'));
                }
                let after: int = if c1 < h1.len() && h1[c1] == ']' {
                    c1 + 1
                } else {
                    c1
                };
                lemma_sep_equivalent_find_date(h1, h2, after);
                assert(version_match(h1) == version_match(h2));
                match version_match(h1) {
                    None => {},
                    Some((q0, qa, qb, q)) => {
                        assert(h1.subrange(p0, a1) =~= h2.subrange(p0, a1));
                        assert(h1.subrange(a1 + 1, b1) =~= h2.subrange(a1 + 1, b1));
                        assert(h1.subrange(b1 + 1, c1) =~= h2.subrange(b1 + 1, c1));
                        assert(h1.subrange(p0, c1) =~= h2.subrange(p0, c1)) by {
                            assert(forall|j: int|
                                p0 <= j < c1 ==> !is_date_sep(#[trigger] h1[j]));
                        }
                        assert(find_date(h1, after) == Some(q)) by {
                            assert(version_match(h1) == Some((q0, qa, qb, q)));
                        }
                        lemma_find_date_shape(h1, after, q);
                        assert(h1.subrange(q, q + 4) =~= h2.subrange(q, q + 4));
                        assert(h1.subrange(q + 5, q + 7) =~= h2.subrange(q + 5, q + 7));
                        assert(h1.subrange(q + 8, q + 10) =~= h2.subrange(q + 8, q + 10));
                    },
                }
            }
        }
    }
}

/// What a found date position gives: the shape holds there.
proof fn lemma_find_date_shape(h: Seq<char>, from: int, q: int)
    requires
        find_date(h, from) == Some(q),
    ensures
        date_at(h, q),
        q + 10 <= h.len(),
        0 <= q,
    decreases h.len() - from,
{
    if !(from < 0 || from + 10 > h.len()) && !date_at(h, from) {
        lemma_find_date_shape(h, from + 1, q);
    }
}

// ---------------------------------------------------------------------------
// The parse itself: fold the classified headings in order.
// ---------------------------------------------------------------------------

/// Folds the headings from `i` on: a non-empty unreleased body replaces the
/// pending one, a release is inserted under its key (a repeated key keeps
/// its place and takes the last entry), an ignored heading is dropped, and
/// the first error ends the parse.
pub open spec fn parse_fold(
    text: Seq<char>,
    blocks: Seq<BlockItem>,
    hs: Seq<Seq<char>>,
    i: int,
    unreleased: Option<Seq<char>>,
    rels: Seq<RelItem>,
) -> Result<(Option<Seq<char>>, Seq<RelItem>), SpecParseErr>
    decreases hs.len() - i,
{
    if i < 0 || i >= hs.len() {
        Ok((unreleased, rels))
    } else {
        let h = hs[i];
        let body = body_for(text, blocks, h);
        if is_unreleased_heading(h) && body.len() > 0 {
            parse_fold(text, blocks, hs, i + 1, Some(body), rels)
        } else {
            match release_for(h, body) {
                Ok(None) => parse_fold(text, blocks, hs, i + 1, unreleased, rels),
                Ok(Some(item)) => parse_fold(
                    text,
                    blocks,
                    hs,
                    i + 1,
                    unreleased,
                    spec_insert(rels, item),
                ),
                Err(e) => Err(e),
            }
        }
    }
}

/// The parse of a scanned block sequence against its source text.
pub open spec fn parse_blocks_spec(text: Seq<char>, blocks: Seq<BlockItem>) -> Result<
    (Option<Seq<char>>, Seq<RelItem>),
    SpecParseErr,
> {
    parse_fold(text, blocks, headers_of(blocks), 0, None, Seq::empty())
}

/// The unreleased body of a document, as a sequence.
pub open spec fn doc_unreleased(c: Changelog) -> Option<Seq<char>> {
    view_opt(c.unreleased)
}

/// The release items of a document.
pub open spec fn doc_releases(c: Changelog) -> Seq<RelItem> {
    release_items(c.releases)
}

/// A well-formed document: keys are distinct, each key is the canonical
/// string of its entry's version, each date names an existing calendar day,
/// and the date's parts fit their renderings.
pub open spec fn wf_changelog(c: Changelog) -> bool {
    &&& spec_distinct_keys(doc_releases(c))
    &&& forall|i: int| 0 <= i < doc_releases(c).len() ==> wf_item(#[trigger] doc_releases(c)[i])
}

/// A well-formed release item.
pub open spec fn wf_item(item: RelItem) -> bool {
    &&& item.0 == spec_version_string(
        Version { major: item.1.0, minor: item.1.1, patch: item.1.2 },
    )
    &&& spec_valid_date(item.2.0 as int, item.2.1 as int, item.2.2 as int)
    &&& item.2.0 <= 9999
    &&& item.2.1 <= 99
    &&& item.2.2 <= 99
}

// ---------------------------------------------------------------------------
// The executable classifier.
// ---------------------------------------------------------------------------

/// Whether a heading names the unreleased section.
pub fn is_unreleased_header(chars: &Vec<char>) -> (r: bool)
    ensures
        r == is_unreleased_heading(chars@),
{
    let n: usize = chars.len();
    let i: usize = if n > 0 && chars[0] == '[' {
        1
    } else {
        0
    };
    if n < i + 10 {
        return false;
    }
    let word = (chars[i] == 'u' || chars[i] == 'U') && (chars[i + 1] == 'n' || chars[i + 1] == 'N')
        && (chars[i + 2] == 'r' || chars[i + 2] == 'R') && (chars[i + 3] == 'e' || chars[i + 3]
        == 'E') && (chars[i + 4] == 'l' || chars[i + 4] == 'L') && (chars[i + 5] == 'e' || chars[i
        + 5] == 'E') && (chars[i + 6] == 'a' || chars[i + 6] == 'A') && (chars[i + 7] == 's'
        || chars[i + 7] == 'S') && (chars[i + 8] == 'e' || chars[i + 8] == 'E') && (chars[i + 9]
        == 'd' || chars[i + 9] == 'D');
    if !word {
        return false;
    }
    n == i + 10 || (n == i + 11 && chars[i + 10] == ']')
}

/// Whether a date shape starts at `q`.
fn date_at_exec(chars: &Vec<char>, q: usize) -> (r: bool)
    requires
        q + 10 <= chars@.len(),
    ensures
        r == date_at(chars@, q as int),
{
    let n: usize = chars.len();
    is_digit_char(chars[q]) && is_digit_char(chars[q + 1]) && is_digit_char(chars[q + 2])
        && is_digit_char(chars[q + 3]) && (chars[q + 4] == '-' || chars[q + 4] == '/')
        && is_digit_char(chars[q + 5]) && is_digit_char(chars[q + 6]) && (chars[q + 7] == '-'
        || chars[q + 7] == '/') && is_digit_char(chars[q + 8]) && is_digit_char(chars[q + 9])
}

/// Whether `c` is an ASCII digit.
pub fn is_digit_char(c: char) -> (r: bool)
    ensures
        r == is_digit(c),
{
    c >= '0' && c <= '9'
}

/// Finds the first date shape at or after `from`.
fn find_date_exec(chars: &Vec<char>, from: usize) -> (r: Option<usize>)
    requires
        from <= chars@.len(),
    ensures
        match r {
            Some(q) => {
                &&& find_date(chars@, from as int) == Some(q as int)
                &&& date_at(chars@, q as int)
                &&& from <= q
                &&& q + 10 <= chars@.len()
            },
            None => find_date(chars@, from as int) is None,
        },
{
    let n: usize = chars.len();
    if n < 10 {
        return None;
    }
    let mut q: usize = from;
    while q <= n - 10
        invariant
            from <= q <= n,
            n == chars@.len(),
            n >= 10,
            find_date(chars@, from as int) == find_date(chars@, q as int),
        decreases n - q,
    {
        if date_at_exec(chars, q) {
            return Some(q);
        }
        q = q + 1;
    }
    None
}

/// Matches a heading against the release shape, yielding the bracket offset,
/// the ends of the first two version runs, and the date position.
fn version_match_exec(chars: &Vec<char>) -> (r: Option<(usize, usize, usize, usize)>)
    ensures
        match r {
            Some(t) => {
                &&& version_match(chars@) == Some(
                    (t.0 as int, t.1 as int, t.2 as int, t.3 as int),
                )
                &&& t.0 <= t.1 < t.2 < chars@.len()
                &&& t.3 + 10 <= chars@.len()
                &&& date_at(chars@, t.3 as int)
            },
            None => version_match(chars@) is None,
        },
{
    let n: usize = chars.len();
    let p0: usize = if n > 0 && chars[0] == '[' {
        1
    } else {
        0
    };
    let a1 = digit_run_end(chars, p0);
    if a1 == p0 || a1 >= n || chars[a1] != '.' {
        return None;
    }
    let b1 = digit_run_end(chars, a1 + 1);
    if b1 == a1 + 1 || b1 >= n || chars[b1] != '.' {
        return None;
    }
    let c1 = digit_run_end(chars, b1 + 1);
    if c1 == b1 + 1 {
        return None;
    }
    let after: usize = if c1 < n && chars[c1] == ']' {
        c1 + 1
    } else {
        c1
    };
    match find_date_exec(chars, after) {
        Some(q) => Some((p0, a1, b1, q)),
        None => None,
    }
}

// ---------------------------------------------------------------------------
// The executable parse.
// ---------------------------------------------------------------------------

/// The body of the section with heading text `h`, cut from the source text
/// and trimmed.
fn section_body(text: &str, blocks: &Vec<MdBlock>, h: &String) -> (b: String)
    ensures
        b@ == body_for(text@, blocks@.map_values(|bb: MdBlock| block_repr(bb)), h@),
{
    let ghost bitems = blocks@.map_values(|bb: MdBlock| block_repr(bb));
    let mut cur: Option<String> = None;
    let mut found = false;
    let mut first_span: Option<(usize, usize)> = None;
    let mut last_span: Option<(usize, usize)> = None;
    let mut j: usize = 0;
    while j < blocks.len()
        invariant
            j <= blocks@.len(),
            bitems == blocks@.map_values(|bb: MdBlock| block_repr(bb)),
            view_opt(cur) == current_header_at(bitems, j as int),
            found == (spans_for_upto(bitems, h@, j as int).len() > 0),
            found ==> first_span == spans_for_upto(bitems, h@, j as int)[0],
            found ==> last_span == spans_for_upto(bitems, h@, j as int).last(),
        decreases blocks@.len() - j,
    {
        let ghost cur_before = view_opt(cur);
        let ghost prev = spans_for_upto(bitems, h@, j as int);
        proof {
            assert(bitems[j as int] == block_repr(blocks@[j as int]));
        }
        let mut body_span: Option<Option<(usize, usize)>> = None;
        match &blocks[j] {
            MdBlock::Heading { depth, text: t, span } => {
                if *depth > 2 {
                    body_span = Some(*span);
                }
            },
            MdBlock::Definition => {},
            MdBlock::Other { span } => {
                body_span = Some(*span);
            },
        }
        proof {
            let bj = bitems[j as int];
            assert(body_span matches Some(sp) ==> is_body_block(bj) && sp == bj.3);
            assert(body_span is None ==> !is_body_block(bj));
        }
        if let Some(sp) = body_span {
            let attributed = match &cur {
                Some(c) => crate::text::str_eq(c.as_str(), h.as_str()),
                None => false,
            };
            proof {
                assert(attributed == (cur_before == Some(h@)));
            }
            if attributed {
                if !found {
                    first_span = sp;
                    found = true;
                }
                last_span = sp;
            }
        }
        match &blocks[j] {
            MdBlock::Heading { depth, text: t, span } => {
                if *depth == 2 {
                    cur = Some(t.clone());
                } else if *depth < 2 {
                    cur = None;
                }
            },
            _ => {},
        }
        j = j + 1;
        proof {
            if is_body_block(bitems[j as int - 1]) && cur_before == Some(h@) {
                assert(spans_for_upto(bitems, h@, j as int) == prev.push(bitems[j as int - 1].3));
            } else {
                assert(spans_for_upto(bitems, h@, j as int) == prev);
            }
        }
    }
    proof {
        assert(spans_for(bitems, h@) == spans_for_upto(bitems, h@, j as int));
    }
    if !found {
        return String::new();
    }
    let fs = match first_span {
        Some(s) => s,
        None => {
            return String::new();
        },
    };
    let ls = match last_span {
        Some(e) => e,
        None => {
            return String::new();
        },
    };
    if fs.0 <= ls.1 && ls.1 <= text.unicode_len() {
        let raw = text.substring_char(fs.0, ls.1);
        trim_str(raw)
    } else {
        String::new()
    }
}

/// Parses scanned blocks against their source text into a document. The
/// result is exactly what the parse of the blocks prescribes: the last
/// non-empty unreleased body, the release entries in first-seen order with a
/// repeated version keeping its place and taking the last entry, and the
/// first version or date error otherwise.
pub fn parse_blocks(text: &str, blocks: Vec<MdBlock>) -> (r: Result<Changelog, ChangelogError>)
    ensures
        ({
            let bitems = blocks@.map_values(|bb: MdBlock| block_repr(bb));
            match parse_blocks_spec(text@, bitems) {
                Ok(dm) => r matches Ok(c) && doc_unreleased(c) == dm.0 && doc_releases(c) == dm.1
                    && wf_changelog(c),
                Err(em) => r matches Err(e) && err_matches(e, em),
            }
        }),
{
    let ghost bitems = blocks@.map_values(|bb: MdBlock| block_repr(bb));
    let mut headers: Vec<String> = Vec::new();
    let mut bi: usize = 0;
    while bi < blocks.len()
        invariant
            bi <= blocks@.len(),
            bitems == blocks@.map_values(|bb: MdBlock| block_repr(bb)),
            headers@.map_values(|s: String| s@) == headers_upto(bitems, bi as int),
        decreases blocks@.len() - bi,
    {
        proof {
            assert(bitems[bi as int] == block_repr(blocks@[bi as int]));
        }
        match &blocks[bi] {
            MdBlock::Heading { depth, text: t, span } => {
                if *depth == 2 {
                    headers.push(t.clone());
                }
            },
            _ => {},
        }
        bi = bi + 1;
        proof {
            assert(headers@.map_values(|s: String| s@) =~= headers_upto(bitems, bi as int));
        }
    }
    let ghost hs = headers_of(bitems);
    proof {
        assert(headers@.map_values(|s: String| s@) == hs);
    }
    let mut unreleased: Option<String> = None;
    let mut releases = new_release_map();
    let mut k: usize = 0;
    while k < headers.len()
        invariant
            k <= headers@.len(),
            bitems == blocks@.map_values(|bb: MdBlock| block_repr(bb)),
            hs == headers_of(bitems),
            headers@.map_values(|s: String| s@) == hs,
            parse_fold(
                text@,
                bitems,
                hs,
                k as int,
                view_opt(unreleased),
                release_items(releases),
            ) == parse_blocks_spec(text@, bitems),
            spec_distinct_keys(release_items(releases)),
            forall|i: int|
                0 <= i < release_items(releases).len() ==> wf_item(
                    #[trigger] release_items(releases)[i],
                ),
        decreases headers@.len() - k,
    {
        proof {
            assert(headers@.map_values(|s: String| s@)[k as int] == headers@[k as int]@);
        }
        let h: String = headers[k].clone();
        let ghost old_unreleased = view_opt(unreleased);
        let ghost old_rels = release_items(releases);
        let body = section_body(text, &blocks, &h);
        let chars = str_to_chars(h.as_str());
        proof {
            assert(chars@ == hs[k as int]);
        }
        if is_unreleased_header(&chars) && !body.as_str().is_empty() {
            unreleased = Some(body);
        } else {
            match version_match_exec(&chars) {
                None => {
                    proof {
                        assert(release_for(hs[k as int], body@) == Ok::<
                            Option<RelItem>,
                            SpecParseErr,
                        >(None));
                    }
                },
                Some((p0, a1, b1, q)) => {
                    let c1 = digit_run_end(&chars, b1 + 1);
                    proof {
                        lemma_digit_run_end(chars@, p0 as int);
                        lemma_digit_run_end(chars@, a1 as int + 1);
                        lemma_digit_run_end(chars@, b1 as int + 1);
                    }
                    match version_from_runs(&chars, p0, a1, a1 + 1, b1, b1 + 1, c1) {
                        Err(_) => {
                            let token = h.as_str().substring_char(p0, c1).to_owned();
                            proof {
                                assert(release_for(hs[k as int], body@) matches Err(em)
                                    && err_matches(ChangelogError::ParseVersion(token), em));
                            }
                            return Err(ChangelogError::ParseVersion(token));
                        },
                        Ok(v) => {
                            let (y, m, d) = date_components(&chars, q);
                            match Date::new(y, m, d) {
                                None => {
                                    return Err(ChangelogError::InvalidReleaseDate);
                                },
                                Some(date) => {
                                    let key = v.to_text();
                                    let entry = ReleaseEntry { version: v, date, body };
                                    proof {
                                        let item = entry_repr(key@, entry);
                                        assert(release_for(hs[k as int], entry.body@)
                                            == Ok::<Option<RelItem>, SpecParseErr>(Some(item)));
                                        assert(wf_item(item));
                                        lemma_insert_wf(old_rels, item);
                                    }
                                    release_map_insert(&mut releases, key, entry);
                                },
                            }
                        },
                    }
                },
            }
        }
        k = k + 1;
        proof {
            assert(parse_fold(
                text@,
                bitems,
                hs,
                k as int - 1,
                old_unreleased,
                old_rels,
            ) == parse_fold(
                text@,
                bitems,
                hs,
                k as int,
                view_opt(unreleased),
                release_items(releases),
            ));
        }
    }
    proof {
        assert(parse_fold(
            text@,
            bitems,
            hs,
            k as int,
            view_opt(unreleased),
            release_items(releases),
        ) == Ok::<(Option<Seq<char>>, Seq<RelItem>), SpecParseErr>(
            (view_opt(unreleased), release_items(releases)),
        ));
    }
    Ok(Changelog { unreleased, releases })
}

/// The year, month, and day numbers of the date shape at `q`.
fn date_components(chars: &Vec<char>, q: usize) -> (r: (u32, u32, u32))
    requires
        q + 10 <= chars@.len(),
        date_at(chars@, q as int),
    ensures
        r.0 as int == digits_value(chars@.subrange(q as int, q as int + 4)),
        r.1 as int == digits_value(chars@.subrange(q as int + 5, q as int + 7)),
        r.2 as int == digits_value(chars@.subrange(q as int + 8, q as int + 10)),
        r.0 <= 9999,
        r.1 <= 99,
        r.2 <= 99,
{
    let n: usize = chars.len();
    proof {
        lemma_date_digits(chars@, q as int);
        crate::text::lemma_digits_value_bound(chars@.subrange(q as int, q as int + 4));
        crate::text::lemma_digits_value_bound(chars@.subrange(q as int + 5, q as int + 7));
        crate::text::lemma_digits_value_bound(chars@.subrange(q as int + 8, q as int + 10));
        reveal_with_fuel(crate::text::ten_pow, 5);
        assert(crate::text::ten_pow(4) == 10000);
        assert(crate::text::ten_pow(2) == 100);
    }
    let y = match crate::text::parse_digits_u64(chars, q, q + 4) {
        Some(v) => v,
        None => {
            proof {
                assert(false);
            }
            0
        },
    };
    let m = match crate::text::parse_digits_u64(chars, q + 5, q + 7) {
        Some(v) => v,
        None => {
            proof {
                assert(false);
            }
            0
        },
    };
    let d = match crate::text::parse_digits_u64(chars, q + 8, q + 10) {
        Some(v) => v,
        None => {
            proof {
                assert(false);
            }
            0
        },
    };
    (y as u32, m as u32, d as u32)
}

/// The four date component runs are all digits.
proof fn lemma_date_digits(h: Seq<char>, q: int)
    requires
        q >= 0,
        q + 10 <= h.len(),
        date_at(h, q),
    ensures
        all_digits(h.subrange(q, q + 4)),
        all_digits(h.subrange(q + 5, q + 7)),
        all_digits(h.subrange(q + 8, q + 10)),
{
    let y = h.subrange(q, q + 4);
    assert forall|i: int| 0 <= i < y.len() implies is_digit(#[trigger] y[i]) by {
        assert(y[i] == h[q + i]);
        if i == 0 {
        } else if i == 1 {
        } else if i == 2 {
        } else {
            assert(i == 3);
        }
    }
    let m = h.subrange(q + 5, q + 7);
    assert forall|i: int| 0 <= i < m.len() implies is_digit(#[trigger] m[i]) by {
        assert(m[i] == h[q + 5 + i]);
        if i == 0 {
        } else {
            assert(i == 1);
        }
    }
    let d = h.subrange(q + 8, q + 10);
    assert forall|i: int| 0 <= i < d.len() implies is_digit(#[trigger] d[i]) by {
        assert(d[i] == h[q + 8 + i]);
        if i == 0 {
        } else {
            assert(i == 1);
        }
    }
}

/// Inserting a well-formed item into a well-formed item sequence keeps every
/// item well formed and the keys distinct.
proof fn lemma_insert_wf(items: Seq<RelItem>, item: RelItem)
    requires
        spec_distinct_keys(items),
        forall|i: int| 0 <= i < items.len() ==> wf_item(#[trigger] items[i]),
        wf_item(item),
    ensures
        spec_distinct_keys(spec_insert(items, item)),
        forall|i: int|
            0 <= i < spec_insert(items, item).len() ==> wf_item(#[trigger] spec_insert(items, item)[i]),
{
    lemma_insert_distinct(items, item);
    let out = spec_insert(items, item);
    if spec_has_key(items, item.0) {
        lemma_key_index(items, item.0);
        assert forall|i: int| 0 <= i < out.len() implies wf_item(#[trigger] out[i]) by {
            if i != spec_key_index(items, item.0) {
                assert(out[i] == items[i]);
            }
        }
    } else {
        assert forall|i: int| 0 <= i < out.len() implies wf_item(#[trigger] out[i]) by {
            if i < items.len() {
                assert(out[i] == items[i]);
            }
        }
    }
}

impl ChangelogError {
    /// The human-readable description of this error.
    pub fn message(&self) -> (r: String)
        ensures
            r@ == (match self {
                ChangelogError::NoRootNode => "No root node in changelog markdown"@,
                ChangelogError::Parse(e) => "Could not parse changelog - "@ + e@,
                ChangelogError::ParseVersion(e) => "Invalid semver version in release entry - "@
                    + e@,
                ChangelogError::ParseReleaseEntryYear(e) => "Invalid year in release entry - "@
                    + e@,
                ChangelogError::ParseReleaseEntryMonth(e) => "Invalid month in release entry - "@
                    + e@,
                ChangelogError::ParseReleaseEntryDay(e) => "Invalid day in release entry - "@ + e@,
                ChangelogError::InvalidReleaseDate => "Invalid date in release entry"@,
                ChangelogError::AmbiguousReleaseDate => "Ambiguous date in release entry"@,
            }),
    {
        match self {
            ChangelogError::NoRootNode => "No root node in changelog markdown".to_owned(),
            ChangelogError::Parse(e) => {
                let mut out: String = "Could not parse changelog - ".to_owned();
                out.append(e.as_str());
                out
            },
            ChangelogError::ParseVersion(e) => {
                let mut out: String = "Invalid semver version in release entry - ".to_owned();
                out.append(e.as_str());
                out
            },
            ChangelogError::ParseReleaseEntryYear(e) => {
                let mut out: String = "Invalid year in release entry - ".to_owned();
                out.append(e.as_str());
                out
            },
            ChangelogError::ParseReleaseEntryMonth(e) => {
                let mut out: String = "Invalid month in release entry - ".to_owned();
                out.append(e.as_str());
                out
            },
            ChangelogError::ParseReleaseEntryDay(e) => {
                let mut out: String = "Invalid day in release entry - ".to_owned();
                out.append(e.as_str());
                out
            },
            ChangelogError::InvalidReleaseDate => "Invalid date in release entry".to_owned(),
            ChangelogError::AmbiguousReleaseDate => "Ambiguous date in release entry".to_owned(),
        }
    }
}

impl Changelog {
    /// Parses a changelog's Markdown text into a document: the unreleased
    /// body when one exists and is not empty, and the release entries in
    /// document order. Fails when the Markdown parser rejects the text or
    /// yields no root, when a release heading's version token is malformed,
    /// or when a release date does not exist.
    pub fn try_from(value: &str) -> (r: Result<Changelog, ChangelogError>)
        ensures
            match md_scan(value@) {
                Err(m) => r matches Err(e) && e matches ChangelogError::Parse(s) && s@ == m,
                Ok(None) => r matches Err(e) && e is NoRootNode,
                Ok(Some(bitems)) => match parse_blocks_spec(value@, bitems) {
                    Ok(dm) => r matches Ok(c) && doc_unreleased(c) == dm.0 && doc_releases(c)
                        == dm.1 && wf_changelog(c),
                    Err(em) => r matches Err(e) && err_matches(e, em),
                },
            },
    {
        match scan_markdown(value) {
            Err(msg) => Err(ChangelogError::Parse(msg)),
            Ok(None) => Err(ChangelogError::NoRootNode),
            Ok(Some(blocks)) => parse_blocks(value, blocks),
        }
    }
}

} // verus!
