//! The fixed-version rule of release preparation: every buildpack of the
//! repository must carry one and the same version before any is bumped.

use vstd::prelude::*;
use crate::version::Version;

verus! {

/// Why no fixed version could be determined.
#[derive(Debug, PartialEq, Eq)]
pub enum PrepareReleaseError {
    /// The buildpacks carry differing versions; each path with its version.
    NotAllVersionsMatch(Vec<(String, Version)>),
    /// No fixed version could be determined.
    NoFixedVersion,
}

/// The view of path/version pairs.
pub open spec fn pairs_view(v: Seq<(String, Version)>) -> Seq<(Seq<char>, Version)> {
    v.map_values(|p: (String, Version)| (p.0@, p.1))
}

/// The one version all buildpacks carry. Differing versions, or none at all,
/// are an error that reports every path with its version.
pub fn get_fixed_version(buildpack_versions: &Vec<(String, Version)>) -> (r: Result<
    Version,
    PrepareReleaseError,
>)
    ensures
        match r {
            Ok(v) => {
                &&& buildpack_versions@.len() > 0
                &&& v == buildpack_versions@[0].1
                &&& forall|i: int|
                    0 <= i < buildpack_versions@.len() ==> #[trigger] buildpack_versions@[i].1 == v
            },
            Err(e) => {
                &&& !(buildpack_versions@.len() > 0 && forall|i: int|
                    0 <= i < buildpack_versions@.len() ==> #[trigger] buildpack_versions@[i].1
                        == buildpack_versions@[0].1)
                &&& e matches PrepareReleaseError::NotAllVersionsMatch(m) && pairs_view(m@)
                    == pairs_view(buildpack_versions@)
            },
        },
{
    if buildpack_versions.len() == 0 {
        return Err(PrepareReleaseError::NotAllVersionsMatch(clone_pairs(buildpack_versions)));
    }
    let first: Version = buildpack_versions[0].1;
    let mut i: usize = 1;
    while i < buildpack_versions.len()
        invariant
            1 <= i <= buildpack_versions@.len(),
            first == buildpack_versions@[0].1,
            forall|j: int| 0 <= j < i ==> #[trigger] buildpack_versions@[j].1 == first,
        decreases buildpack_versions@.len() - i,
    {
        let v: Version = buildpack_versions[i].1;
        if v.major != first.major || v.minor != first.minor || v.patch != first.patch {
            return Err(PrepareReleaseError::NotAllVersionsMatch(clone_pairs(buildpack_versions)));
        }
        i = i + 1;
    }
    Ok(first)
}

/// Formats one line per buildpack, each a bullet with the version and the
/// path that carries it.
pub fn list_versions_with_path(pairs: &Vec<(String, Version)>) -> (r: String)
    ensures
        r@ == crate::matrix::spec_bullet_list(
            pairs_view(pairs@).map_values(
                |p: (Seq<char>, Version)| crate::version::spec_version_string(p.1) + " ("@ + p.0
                    + ")"@,
            ),
        ),
{
    let ghost wanted = pairs_view(pairs@).map_values(
        |p: (Seq<char>, Version)| crate::version::spec_version_string(p.1) + " ("@ + p.0 + ")"@,
    );
    let mut lines: Vec<String> = Vec::new();
    let mut i: usize = 0;
    while i < pairs.len()
        invariant
            i <= pairs@.len(),
            wanted == pairs_view(pairs@).map_values(
                |p: (Seq<char>, Version)| crate::version::spec_version_string(p.1) + " ("@ + p.0
                    + ")"@,
            ),
            lines@.map_values(|s: String| s@) == wanted.subrange(0, i as int),
        decreases pairs@.len() - i,
    {
        let ghost om = lines@.map_values(|s: String| s@);
        let mut line = pairs[i].1.to_text();
        line.append(" (");
        line.append(pairs[i].0.as_str());
        line.append(")");
        proof {
            assert(pairs_view(pairs@)[i as int] == (pairs@[i as int].0@, pairs@[i as int].1));
            assert(line@ == wanted[i as int]);
        }
        lines.push(line);
        i = i + 1;
        proof {
            assert(lines@.map_values(|s: String| s@) =~= om.push(wanted[i as int - 1]));
            assert(lines@.map_values(|s: String| s@) =~= wanted.subrange(0, i as int));
        }
    }
    proof {
        assert(wanted.subrange(0, wanted.len() as int) =~= wanted);
    }
    crate::matrix::list_versions(&lines)
}

/// A copy of the path/version pairs.
fn clone_pairs(v: &Vec<(String, Version)>) -> (r: Vec<(String, Version)>)
    ensures
        pairs_view(r@) == pairs_view(v@),
{
    let mut out: Vec<(String, Version)> = Vec::new();
    let mut i: usize = 0;
    while i < v.len()
        invariant
            i <= v@.len(),
            pairs_view(out@) == pairs_view(v@).subrange(0, i as int),
        decreases v@.len() - i,
    {
        let ghost om = pairs_view(out@);
        out.push((v[i].0.clone(), v[i].1));
        i = i + 1;
        proof {
            assert(pairs_view(out@) =~= om.push(pairs_view(v@)[i as int - 1]));
            assert(pairs_view(out@) =~= pairs_view(v@).subrange(0, i as int));
        }
    }
    proof {
        assert(pairs_view(v@).subrange(0, v@.len() as int) =~= pairs_view(v@));
    }
    out
}

} // verus!
