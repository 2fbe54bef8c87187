//! Pure logic behind the buildpack-matrix command: image tags, packaged file
//! names, target naming, rust triples, output directories, and the decision
//! table for a buildpack's type.

use vstd::prelude::*;
use crate::text::str_eq;

verus! {

/// A packaging target: operating system, architecture, and optional variant.
#[derive(Debug, Clone)]
pub struct Target {
    pub os: Option<String>,
    pub arch: Option<String>,
    pub variant: Option<String>,
}

/// How a buildpack is implemented, decided from the evidence in its directory.
#[derive(Debug, Clone, PartialEq, Eq, Structural)]
pub enum BuildpackType {
    Bash,
    Composite,
    Libcnb,
}

/// Why a buildpack's type could not be decided.
#[derive(Debug, Clone, PartialEq, Eq, Structural)]
pub enum BuildpackTypeError {
    /// Evidence for two or more buildpack types was found.
    MultipleTypes,
    /// No evidence of any buildpack type was found.
    UnknownType,
}

/// An image tag: `repo:tag`, with `_suffix` appended when a suffix is given.
pub open spec fn spec_tag(repo: Seq<char>, tag: Seq<char>, suffix: Option<Seq<char>>) -> Seq<
    char,
> {
    match suffix {
        Some(s) => repo + ":"@ + tag + "_"@ + s,
        None => repo + ":"@ + tag,
    }
}

/// Builds the image tag for a repository, tag, and optional target suffix.
pub fn generate_tag(repo: &str, tag: &str, suffix: Option<&str>) -> (r: String)
    ensures
        r@ == spec_tag(repo@, tag@, match suffix {
            Some(s) => Some(s@),
            None => None,
        }),
{
    let mut out = repo.to_owned();
    out.append(":");
    out.append(tag);
    if let Some(s) = suffix {
        out.append("_");
        out.append(s);
    }
    out
}

/// The packaged `.cnb` file name for a buildpack id and optional target
/// suffix. The directory-safe name replaces `/` with `_` in the id.
pub open spec fn spec_cnb_file(id: Seq<char>, suffix: Option<Seq<char>>) -> Seq<char> {
    match suffix {
        Some(s) => spec_directory_name(id) + "_"@ + s + ".cnb"@,
        None => spec_directory_name(id) + ".cnb"@,
    }
}

/// A buildpack id with each `/` replaced by `_`.
pub open spec fn spec_directory_name(id: Seq<char>) -> Seq<char> {
    id.map_values(|c: char| if c == '/' { '_' } else { c })
}

/// Replaces each `/` in a buildpack id with `_`, yielding a directory-safe
/// name.
pub fn directory_name(id: &str) -> (r: String)
    ensures
        r@ == spec_directory_name(id@),
{
    let n: usize = id.unicode_len();
    let mut out = String::new();
    let mut i: usize = 0;
    while i < n
        invariant
            i <= n,
            n == id@.len(),
            out@.len() == i,
            forall|j: int|
                0 <= j < i ==> out@[j] == (if id@[j] == '/' {
                    '_'
                } else {
                    id@[j]
                }),
        decreases n - i,
    {
        let c = id.get_char(i);
        if c == '/' {
            out.append("_");
            proof {
                reveal_strlit("_");
            }
        } else {
            crate::text::push_char(&mut out, c);
        }
        i = i + 1;
    }
    proof {
        assert(out@ =~= spec_directory_name(id@));
    }
    out
}

/// The `.cnb` file name for a buildpack id and optional target suffix.
pub fn cnb_file(id: &str, suffix: Option<&str>) -> (r: String)
    ensures
        r@ == spec_cnb_file(id@, match suffix {
            Some(s) => Some(s@),
            None => None,
        }),
{
    let mut out = directory_name(id);
    if let Some(s) = suffix {
        out.append("_");
        out.append(s);
        out.append(".cnb");
    } else {
        out.append(".cnb");
    }
    out
}

/// The naming suffix for a target: `os-arch`, `os`, `universal-arch`, or
/// `universal`.
pub open spec fn spec_target_name(os: Option<Seq<char>>, arch: Option<Seq<char>>) -> Seq<char> {
    match (os, arch) {
        (Some(o), Some(a)) => o + "-"@ + a,
        (Some(o), None) => o,
        (None, Some(a)) => "universal-"@ + a,
        (None, None) => "universal"@,
    }
}

/// The tag and file-name suffix for a target.
pub fn target_name(target: &Target) -> (r: String)
    ensures
        r@ == spec_target_name(spec_opt_view(target.os), spec_opt_view(target.arch)),
{
    match (&target.os, &target.arch) {
        (Some(o), Some(a)) => {
            let mut out = o.clone();
            out.append("-");
            out.append(a.as_str());
            out
        },
        (Some(o), None) => o.clone(),
        (None, Some(a)) => {
            let mut out: String = "universal-".to_owned();
            out.append(a.as_str());
            out
        },
        (None, None) => "universal".to_owned(),
    }
}

/// The view of an optional string.
pub open spec fn spec_opt_view(s: Option<String>) -> Option<Seq<char>> {
    match s {
        Some(v) => Some(v@),
        None => None,
    }
}

/// The rust target triple for a target, known only for linux on amd64 or
/// arm64.
pub open spec fn spec_rust_triple(os: Option<Seq<char>>, arch: Option<Seq<char>>) -> Option<
    Seq<char>,
> {
    if os == Some("linux"@) && arch == Some("amd64"@) {
        Some("x86_64-unknown-linux-musl"@)
    } else if os == Some("linux"@) && arch == Some("arm64"@) {
        Some("aarch64-unknown-linux-musl"@)
    } else {
        None
    }
}

/// The rust target triple used to compile a buildpack for a target, when one
/// is known for that target.
pub fn rust_triple(target: &Target) -> (r: Option<String>)
    ensures
        match r {
            Some(t) => spec_rust_triple(spec_opt_view(target.os), spec_opt_view(target.arch))
                == Some(t@),
            None => spec_rust_triple(spec_opt_view(target.os), spec_opt_view(target.arch))
                is None,
        },
{
    match (&target.os, &target.arch) {
        (Some(o), Some(a)) => {
            if str_eq(o.as_str(), "linux") && str_eq(a.as_str(), "amd64") {
                Some("x86_64-unknown-linux-musl".to_owned())
            } else if str_eq(o.as_str(), "linux") && str_eq(a.as_str(), "arm64") {
                Some("aarch64-unknown-linux-musl".to_owned())
            } else {
                None
            }
        },
        _ => None,
    }
}

/// The expected packaged output directory for a buildpack and target:
/// `package_dir/<target dir>/release/<directory-safe id>`. Bash buildpacks
/// use the target name as the target directory; the others use the rust
/// triple and have no directory when the triple is unknown.
pub open spec fn spec_target_output_dir(
    package_dir: Seq<char>,
    target_dirname: Seq<char>,
    id: Seq<char>,
) -> Seq<char> {
    package_dir + "/"@ + target_dirname + "/release/"@ + spec_directory_name(id)
}

/// Joins the packaged output directory for a buildpack id, given the
/// directory name chosen for the target.
pub fn target_output_dir(package_dir: &str, target_dirname: &str, id: &str) -> (r: String)
    ensures
        r@ == spec_target_output_dir(package_dir@, target_dirname@, id@),
{
    let mut out = package_dir.to_owned();
    out.append("/");
    out.append(target_dirname);
    out.append("/release/");
    let dir = directory_name(id);
    out.append(dir.as_str());
    out
}

/// Decides a buildpack's type from whether its descriptor is composite and
/// what evidence sits in its directory: exactly one kind of evidence names
/// the type; none or several is an error.
pub fn buildpack_type(is_composite: bool, cargo_toml: bool, bin_files: bool) -> (r: Result<
    BuildpackType,
    BuildpackTypeError,
>)
    ensures
        r == (if is_composite {
            if !cargo_toml && !bin_files {
                Ok::<BuildpackType, BuildpackTypeError>(BuildpackType::Composite)
            } else {
                Err::<BuildpackType, BuildpackTypeError>(BuildpackTypeError::MultipleTypes)
            }
        } else if cargo_toml && !bin_files {
            Ok::<BuildpackType, BuildpackTypeError>(BuildpackType::Libcnb)
        } else if !cargo_toml && bin_files {
            Ok::<BuildpackType, BuildpackTypeError>(BuildpackType::Bash)
        } else if !cargo_toml && !bin_files {
            Err::<BuildpackType, BuildpackTypeError>(BuildpackTypeError::UnknownType)
        } else {
            Err::<BuildpackType, BuildpackTypeError>(BuildpackTypeError::MultipleTypes)
        }),
{
    match (is_composite, cargo_toml, bin_files) {
        (true, false, false) => Ok(BuildpackType::Composite),
        (true, _, _) => Err(BuildpackTypeError::MultipleTypes),
        (false, true, false) => Ok(BuildpackType::Libcnb),
        (false, false, true) => Ok(BuildpackType::Bash),
        (false, false, false) => Err(BuildpackTypeError::UnknownType),
        (false, true, true) => Err(BuildpackTypeError::MultipleTypes),
    }
}

/// Whether a file listing holds `Cargo.toml`, the evidence of a libcnb
/// buildpack.
pub fn has_cargo_toml(dir_files: &Vec<String>) -> (r: bool)
    ensures
        r == exists|i: int| 0 <= i < dir_files@.len() && #[trigger] dir_files@[i]@ == "Cargo.toml"@,
{
    contains_str(dir_files, "Cargo.toml")
}

/// Whether a listing of a `bin` directory holds both `detect` and `build`,
/// the evidence of a bash buildpack.
pub fn has_bin_files(bin_files: &Vec<String>) -> (r: bool)
    ensures
        r == ((exists|i: int|
            0 <= i < bin_files@.len() && #[trigger] bin_files@[i]@ == "detect"@) && (exists|i: int|
            0 <= i < bin_files@.len() && #[trigger] bin_files@[i]@ == "build"@)),
{
    contains_str(bin_files, "detect") && contains_str(bin_files, "build")
}

/// Whether any string of the vector has the content of `needle`.
pub fn contains_str(items: &Vec<String>, needle: &str) -> (r: bool)
    ensures
        r == exists|i: int| 0 <= i < items@.len() && #[trigger] items@[i]@ == needle@,
{
    let mut i: usize = 0;
    while i < items.len()
        invariant
            i <= items@.len(),
            forall|j: int| 0 <= j < i ==> #[trigger] items@[j]@ != needle@,
        decreases items@.len() - i,
    {
        if str_eq(items[i].as_str(), needle) {
            return true;
        }
        i = i + 1;
    }
    false
}

/// When a buildpack declares no targets, one default target (linux on amd64)
/// stands in.
pub fn ensure_default_target(targets: &mut Vec<Target>)
    ensures
        old(targets)@.len() > 0 ==> final(targets)@ == old(targets)@,
        old(targets)@.len() == 0 ==> {
            &&& final(targets)@.len() == 1
            &&& spec_opt_view(final(targets)@[0].os) == Some("linux"@)
            &&& spec_opt_view(final(targets)@[0].arch) == Some("amd64"@)
            &&& final(targets)@[0].variant is None
        },
{
    if targets.len() == 0 {
        targets.push(
            Target { os: Some("linux".to_owned()), arch: Some("amd64".to_owned()), variant: None },
        );
    }
}

/// The bullet list used when differing versions are reported.
pub open spec fn spec_bullet_list(items: Seq<Seq<char>>) -> Seq<char>
    decreases items.len(),
{
    if items.len() == 0 {
        Seq::empty()
    } else if items.len() == 1 {
        "\u{2022} "@ + items[0]
    } else {
        spec_bullet_list(items.drop_last()) + "\n\u{2022} "@ + items.last()
    }
}

/// Formats one line per version, each prefixed with a bullet.
pub fn list_versions(versions: &Vec<String>) -> (r: String)
    ensures
        r@ == spec_bullet_list(versions@.map_values(|s: String| s@)),
{
    let ghost items = versions@.map_values(|s: String| s@);
    let mut out = String::new();
    let mut i: usize = 0;
    while i < versions.len()
        invariant
            i <= versions@.len(),
            items == versions@.map_values(|s: String| s@),
            out@ == spec_bullet_list(items.subrange(0, i as int)),
        decreases versions@.len() - i,
    {
        if i == 0 {
            out.append("\u{2022} ");
        } else {
            out.append("\n\u{2022} ");
        }
        out.append(versions[i].as_str());
        i = i + 1;
        proof {
            let p = items.subrange(0, i as int);
            assert(p.drop_last() =~= items.subrange(0, i as int - 1));
            assert(p.last() == items[i as int - 1]);
            assert(items[i as int - 1] == versions@[i as int - 1]@);
            assert(out@ =~= spec_bullet_list(p));
        }
    }
    proof {
        assert(items.subrange(0, versions@.len() as int) =~= items);
    }
    out
}

} // verus!
