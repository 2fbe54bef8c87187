//! Formatting of GitHub Actions data: the line appended to the output file
//! for a name/value pair, and the block appended to the step summary. The
//! caller writes the returned text to the file the environment names.

use vstd::prelude::*;

verus! {

/// The text appended to the step summary for a markdown block: the markdown
/// followed by a newline.
pub fn set_summary(markdown: &str) -> (r: String)
    ensures
        r@ == markdown@ + "\n"@,
{
    let mut out = markdown.to_owned();
    out.append("\n");
    out
}

/// Whether `s` holds the character `c`.
pub open spec fn spec_contains_char(s: Seq<char>, c: char) -> bool {
    exists|i: int| 0 <= i < s.len() && s[i] == c
}

/// Whether a string holds the given character.
pub fn contains_char(s: &str, c: char) -> (r: bool)
    ensures
        r == spec_contains_char(s@, c),
{
    let n: usize = s.unicode_len();
    let mut i: usize = 0;
    while i < n
        invariant
            i <= n,
            n == s@.len(),
            forall|j: int| 0 <= j < i ==> s@[j] != c,
        decreases n - i,
    {
        if s.get_char(i) == c {
            return true;
        }
        i = i + 1;
    }
    false
}

/// An ASCII alphanumeric character: a letter or a digit.
pub open spec fn is_alphanumeric_char(c: char) -> bool {
    ('0' <= c && c <= '9') || ('a' <= c && c <= 'z') || ('A' <= c && c <= 'Z')
}

/// Relies on `fastrand::alphanumeric`: returns a random ASCII letter or
/// digit. Nothing is assumed about which one.
#[verifier::external_body]
fn random_alphanumeric() -> (r: char)
    ensures
        is_alphanumeric_char(r),
{
    fastrand::alphanumeric()
}

/// A random delimiter of `len` ASCII alphanumeric characters.
pub fn random_delimiter(len: usize) -> (r: String)
    ensures
        r@.len() == len,
        forall|i: int| 0 <= i < r@.len() ==> is_alphanumeric_char(#[trigger] r@[i]),
{
    let mut out = String::new();
    let mut i: usize = 0;
    while i < len
        invariant
            i <= len,
            out@.len() == i,
            forall|j: int| 0 <= j < out@.len() ==> is_alphanumeric_char(#[trigger] out@[j]),
        decreases len - i,
    {
        let c = random_alphanumeric();
        crate::text::push_char(&mut out, c);
        i = i + 1;
    }
    out
}

/// The line for a single-line value: `name=value` and a newline.
pub open spec fn spec_output_line_simple(name: Seq<char>, value: Seq<char>) -> Seq<char> {
    name + "="@ + value + "\n"@
}

/// The block for a multi-line value: a heredoc fenced by the delimiter.
pub open spec fn spec_output_line_heredoc(
    name: Seq<char>,
    value: Seq<char>,
    delimiter: Seq<char>,
) -> Seq<char> {
    name + "<<"@ + delimiter + "\n"@ + value + "\n"@ + delimiter + "\n"@
}

/// The text appended to the output file for a name/value pair: `name=value`
/// for single-line values, and a heredoc fenced by a random twenty-character
/// alphanumeric delimiter when the value spans lines.
pub fn set_output(name: &str, value: &str) -> (r: String)
    ensures
        !spec_contains_char(value@, '\n') ==> r@ == spec_output_line_simple(name@, value@),
        spec_contains_char(value@, '\n') ==> exists|d: Seq<char>|
            {
                &&& d.len() == 20
                &&& (forall|i: int| 0 <= i < d.len() ==> is_alphanumeric_char(#[trigger] d[i]))
                &&& r@ == spec_output_line_heredoc(name@, value@, d)
            },
{
    if contains_char(value, '\n') {
        let delimiter = random_delimiter(20);
        let mut out = name.to_owned();
        out.append("<<");
        out.append(delimiter.as_str());
        out.append("\n");
        out.append(value);
        out.append("\n");
        out.append(delimiter.as_str());
        out.append("\n");
        proof {
            assert(out@ == spec_output_line_heredoc(name@, value@, delimiter@));
        }
        out
    } else {
        let mut out = name.to_owned();
        out.append("=");
        out.append(value);
        out.append("\n");
        out
    }
}

} // verus!
