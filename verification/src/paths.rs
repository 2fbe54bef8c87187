//! Path resolution on plain strings, and the bullet list of builder names.

use vstd::prelude::*;

verus! {

/// An absolute path stands alone; a relative path is joined under the base
/// the way paths join: nothing is inserted when the base is empty or already
/// ends with a separator, and a `/` is inserted otherwise.
pub open spec fn spec_resolve_path(path: Seq<char>, base: Seq<char>) -> Seq<char> {
    if path.len() > 0 && path[0] == '/' {
        path
    } else if base.len() == 0 {
        path
    } else if base.last() == '/' {
        base + path
    } else {
        base + "/"@ + path
    }
}

/// Resolves a possibly-relative path against a base directory.
pub fn resolve_path(path: &str, base: &str) -> (r: String)
    ensures
        r@ == spec_resolve_path(path@, base@),
{
    let n: usize = path.unicode_len();
    let bn: usize = base.unicode_len();
    if n > 0 && path.get_char(0) == '/' {
        path.to_owned()
    } else if bn == 0 {
        path.to_owned()
    } else if base.get_char(bn - 1) == '/' {
        let mut out = base.to_owned();
        out.append(path);
        out
    } else {
        let mut out = base.to_owned();
        out.append("/");
        out.append(path);
        out
    }
}

/// Formats one line per builder name, each prefixed with a bullet.
pub fn list_builders(builders: &Vec<String>) -> (r: String)
    ensures
        r@ == crate::matrix::spec_bullet_list(builders@.map_values(|s: String| s@)),
{
    crate::matrix::list_versions(builders)
}

} // verus!
