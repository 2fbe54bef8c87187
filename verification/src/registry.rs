//! Pure logic behind the registry check: splitting a buildpack id into
//! namespace and name, locating the registry index file for a name, and
//! checking a version against the index entries.

use vstd::prelude::*;
use crate::text::str_eq;

verus! {

/// Index of the first `/` in `s` at or after `from`, or the length of `s`
/// when there is none.
pub open spec fn spec_find_slash(s: Seq<char>, from: int) -> int
    decreases s.len() - from,
{
    if from < 0 || from >= s.len() {
        s.len() as int
    } else if s[from] == '/' {
        from
    } else {
        spec_find_slash(s, from + 1)
    }
}

/// The namespace and name of a buildpack id: the text before the first `/`
/// and the text between the first and the second, when the id has a `/`.
pub open spec fn spec_namespace_and_name(id: Seq<char>) -> Option<(Seq<char>, Seq<char>)> {
    let i = spec_find_slash(id, 0);
    if i == id.len() {
        None
    } else {
        let j = spec_find_slash(id, i + 1);
        Some((id.subrange(0, i), id.subrange(i + 1, j)))
    }
}

/// Finds the first `/` at or after `from`, returning the string length when
/// there is none.
fn find_slash(chars: &Vec<char>, from: usize) -> (r: usize)
    requires
        from <= chars@.len(),
    ensures
        r == spec_find_slash(chars@, from as int),
        from <= r <= chars@.len(),
{
    let mut i: usize = from;
    while i < chars.len()
        invariant
            from <= i <= chars@.len(),
            spec_find_slash(chars@, from as int) == spec_find_slash(chars@, i as int),
        decreases chars@.len() - i,
    {
        if chars[i] == '/' {
            return i;
        }
        i = i + 1;
    }
    i
}

/// Splits a buildpack id at its first `/` into namespace and name; `None`
/// when the id holds no `/`.
pub fn get_namespace_and_name(buildpack_id: &str) -> (r: Option<(String, String)>)
    ensures
        match r {
            Some(p) => spec_namespace_and_name(buildpack_id@) matches Some(q) && p.0@ == q.0
                && p.1@ == q.1,
            None => spec_namespace_and_name(buildpack_id@) is None,
        },
{
    let chars = crate::text::str_to_chars(buildpack_id);
    let i = find_slash(&chars, 0);
    if i == chars.len() {
        return None;
    }
    let j = find_slash(&chars, i + 1);
    let ns = buildpack_id.substring_char(0, i);
    let name = buildpack_id.substring_char(i + 1, j);
    Some((ns.to_owned(), name.to_owned()))
}

/// The registry index path for a namespace and name, decided by the name's
/// length: `1/ns_name`, `2/ns_name`, `3/xy/ns_name`, or `xy/zw/ns_name`.
pub open spec fn spec_index_path(ns: Seq<char>, name: Seq<char>) -> Seq<char> {
    let file = ns + "_"@ + name;
    if name.len() == 1 {
        "1/"@ + file
    } else if name.len() == 2 {
        "2/"@ + file
    } else if name.len() == 3 {
        "3/"@ + name.subrange(0, 2) + "/"@ + file
    } else {
        name.subrange(0, 2) + "/"@ + name.subrange(2, 4) + "/"@ + file
    }
}

/// The relative path of the registry index file for a buildpack, as the
/// registry lays its index out by name length.
pub fn get_index_path(namespace: &str, name: &str) -> (r: String)
    requires
        name@.len() >= 1,
    ensures
        r@ == spec_index_path(namespace@, name@),
{
    let n: usize = name.unicode_len();
    let mut out: String;
    if n == 1 {
        out = "1/".to_owned();
    } else if n == 2 {
        out = "2/".to_owned();
    } else if n == 3 {
        out = "3/".to_owned();
        out.append(name.substring_char(0, 2));
        out.append("/");
    } else {
        out = name.substring_char(0, 2).to_owned();
        out.append("/");
        out.append(name.substring_char(2, 4));
        out.append("/");
    }
    out.append(namespace);
    out.append("_");
    out.append(name);
    proof {
        assert(out@ =~= spec_index_path(namespace@, name@));
    }
    out
}

/// The lines of the index that hold an entry: those not blank after
/// trimming, among the first `n` lines.
pub open spec fn nonblank_upto(ls: Seq<Seq<char>>, n: int) -> Seq<Seq<char>>
    decreases n,
{
    if n <= 0 {
        Seq::empty()
    } else {
        let prev = nonblank_upto(ls, n - 1);
        if crate::text::spec_trim(ls[n - 1]).len() > 0 {
            prev.push(ls[n - 1])
        } else {
            prev
        }
    }
}

/// The non-blank lines of a registry index file, each one JSON for one
/// registry entry, in order.
pub fn registry_index_lines(contents: &str) -> (r: Vec<String>)
    ensures
        r@.map_values(|l: String| l@) == nonblank_upto(
            crate::text::spec_lines(contents@),
            crate::text::spec_lines(contents@).len() as int,
        ),
{
    let ls = crate::text::split_lines(contents);
    let ghost lv = ls@.map_values(|l: String| l@);
    let mut out: Vec<String> = Vec::new();
    let mut i: usize = 0;
    while i < ls.len()
        invariant
            i <= ls@.len(),
            lv == ls@.map_values(|l: String| l@),
            out@.map_values(|l: String| l@) == nonblank_upto(lv, i as int),
        decreases ls@.len() - i,
    {
        let ghost om = out@.map_values(|l: String| l@);
        let t = crate::text::trim_str(ls[i].as_str());
        if !t.as_str().is_empty() {
            out.push(ls[i].clone());
            proof {
                assert(out@.map_values(|l: String| l@) =~= om.push(lv[i as int]));
            }
        }
        i = i + 1;
    }
    out
}

/// Whether any entry of the index carries exactly the wanted version.
pub fn version_is_registered(entry_versions: &Vec<String>, version: &str) -> (r: bool)
    ensures
        r == exists|i: int|
            0 <= i < entry_versions@.len() && #[trigger] entry_versions@[i]@ == version@,
{
    let mut i: usize = 0;
    while i < entry_versions.len()
        invariant
            i <= entry_versions@.len(),
            forall|j: int| 0 <= j < i ==> #[trigger] entry_versions@[j]@ != version@,
        decreases entry_versions@.len() - i,
    {
        if str_eq(entry_versions[i].as_str(), version) {
            return true;
        }
        i = i + 1;
    }
    false
}

} // verus!
