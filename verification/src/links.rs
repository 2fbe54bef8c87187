//! The trailing reference-link block: one `[label]: url` line for the
//! unreleased section and for each participating release, newest first,
//! chaining each release's compare range to the next older participant.

use vstd::prelude::*;
use crate::changelog::{doc_releases, Changelog, RelItem};
use crate::releases::{item_matches, release_map_values};
use crate::version::{spec_version_le, spec_version_string, Version};

verus! {

/// The version of a release item.
pub open spec fn item_version(item: RelItem) -> Version {
    Version { major: item.1.0, minor: item.1.1, patch: item.1.2 }
}

/// Whether a release participates in the chain: with a floor set, only
/// releases at or above the floor do.
pub open spec fn item_participates(item: RelItem, floor: Option<Version>) -> bool {
    match floor {
        Some(f) => spec_version_le(f, item_version(item)),
        None => true,
    }
}

/// The participating versions among the first `n` items, in document order.
pub open spec fn participants_upto(items: Seq<RelItem>, floor: Option<Version>, n: int) -> Seq<
    Version,
>
    decreases n,
{
    if n <= 0 {
        Seq::empty()
    } else {
        let prev = participants_upto(items, floor, n - 1);
        if item_participates(items[n - 1], floor) {
            prev.push(item_version(items[n - 1]))
        } else {
            prev
        }
    }
}

/// All participating versions, in document order.
pub open spec fn spec_participants(items: Seq<RelItem>, floor: Option<Version>) -> Seq<Version> {
    participants_upto(items, floor, items.len() as int)
}

/// The lines for the participants from position `i` on: each version's
/// compare link against the next older participant, and a tag link for the
/// oldest.
pub open spec fn spec_chain_from(vs: Seq<Version>, repo: Seq<char>, i: int) -> Seq<char>
    decreases vs.len() - i,
{
    if i < 0 || i >= vs.len() {
        Seq::empty()
    } else if i == vs.len() - 1 {
        "\n["@ + spec_version_string(vs[i]) + "]: "@ + repo + "/releases/tag/v"@
            + spec_version_string(vs[i])
    } else {
        "\n["@ + spec_version_string(vs[i]) + "]: "@ + repo + "/compare/v"@ + spec_version_string(
            vs[i + 1],
        ) + "...v"@ + spec_version_string(vs[i]) + spec_chain_from(vs, repo, i + 1)
    }
}

/// The whole link block: the unreleased line (a compare range to `HEAD` from
/// the newest participant, or the bare repository URL when none
/// participates), then the chain of release lines.
pub open spec fn spec_links(vs: Seq<Version>, repo: Seq<char>) -> Seq<char> {
    if vs.len() == 0 {
        "[unreleased]: "@ + repo
    } else {
        "[unreleased]: "@ + repo + "/compare/v"@ + spec_version_string(vs[0]) + "...HEAD"@
            + spec_chain_from(vs, repo, 0)
    }
}

/// Renders the reference-link block for a document against a repository
/// URL. With a floor version set, releases below the floor are left out of
/// the chain entirely.
pub fn generate_release_declarations(
    changelog: &Changelog,
    repository: &str,
    starting_with_version: &Option<Version>,
) -> (r: String)
    ensures
        r@ == spec_links(
            spec_participants(doc_releases(*changelog), *starting_with_version),
            repository@,
        ),
{
    let ghost items = doc_releases(*changelog);
    let entries = release_map_values(&changelog.releases);
    let mut versions: Vec<Version> = Vec::new();
    let mut i: usize = 0;
    while i < entries.len()
        invariant
            i <= entries@.len(),
            entries@.len() == items.len(),
            items == doc_releases(*changelog),
            forall|j: int| 0 <= j < items.len() ==> item_matches(#[trigger] items[j], entries@[j]),
            versions@ == participants_upto(items, *starting_with_version, i as int),
        decreases entries@.len() - i,
    {
        proof {
            assert(item_matches(items[i as int], entries@[i as int]));
        }
        let keep = match starting_with_version {
            Some(f) => f.le(&entries[i].version),
            None => true,
        };
        if keep {
            versions.push(entries[i].version);
        }
        i = i + 1;
    }
    let ghost vs = spec_participants(items, *starting_with_version);
    proof {
        assert(versions@ == vs);
    }
    let mut out: String = "[unreleased]: ".to_owned();
    out.append(repository);
    if versions.len() == 0 {
        proof {
            assert(out@ =~= spec_links(vs, repository@));
        }
        return out;
    }
    out.append("/compare/v");
    out.append(versions[0].to_text().as_str());
    out.append("...HEAD");
    let mut k: usize = 0;
    proof {
        assert(out@ + spec_chain_from(vs, repository@, 0int) =~= spec_links(vs, repository@));
    }
    while k < versions.len()
        invariant
            k <= versions@.len(),
            versions@ == vs,
            vs.len() > 0,
            out@ + spec_chain_from(vs, repository@, k as int) == spec_links(vs, repository@),
        decreases versions@.len() - k,
    {
        let ghost pre = out@;
        out.append("\n[");
        out.append(versions[k].to_text().as_str());
        out.append("]: ");
        out.append(repository);
        if k == versions.len() - 1 {
            out.append("/releases/tag/v");
            out.append(versions[k].to_text().as_str());
            proof {
                assert(out@ =~= pre + spec_chain_from(vs, repository@, k as int));
            }
        } else {
            out.append("/compare/v");
            out.append(versions[k + 1].to_text().as_str());
            out.append("...v");
            out.append(versions[k].to_text().as_str());
            proof {
                assert(out@ + spec_chain_from(vs, repository@, k as int + 1) =~= pre
                    + spec_chain_from(vs, repository@, k as int));
            }
        }
        k = k + 1;
    }
    proof {
        assert(spec_chain_from(vs, repository@, k as int) =~= Seq::<char>::empty());
        assert(out@ =~= spec_links(vs, repository@));
    }
    out
}

} // verus!
