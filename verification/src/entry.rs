//! Selecting one section's change notes out of a parsed changelog, for the
//! changelog-aggregation command.

use vstd::prelude::*;
use crate::changelog::{doc_releases, doc_unreleased, Changelog};
use crate::promote::{insert_sorted, sorted_unique_upto};
use crate::releases::{release_map_get, spec_has_key, spec_key_index};
use crate::text::{spec_trim, str_eq, trim_str};

verus! {

/// Which section of a changelog is asked for.
#[derive(Debug, Clone, PartialEq, Eq)]
pub enum ChangelogEntryType {
    Unreleased,
    Version(String),
}

/// What a changelog holds for the asked-for section.
#[derive(Debug, Clone, PartialEq, Eq)]
pub enum ChangelogEntry {
    /// The asked-for version has no entry.
    VersionNotPresent,
    /// The section exists and has no changes.
    Empty,
    /// The section's change notes.
    Changes(String),
}

/// Reads the asked-for section out of a changelog: the pending unreleased
/// notes, or a version's body; a present, bodiless release reads as empty,
/// and a missing version as not present.
pub fn changelog_entry(changelog: &Changelog, entry_type: &ChangelogEntryType) -> (r:
    ChangelogEntry)
    ensures
        match entry_type {
            ChangelogEntryType::Unreleased => match doc_unreleased(*changelog) {
                Some(u) => r matches ChangelogEntry::Changes(c) && c@ == u,
                None => r is Empty,
            },
            ChangelogEntryType::Version(v) => {
                let items = doc_releases(*changelog);
                if spec_has_key(items, v@) {
                    let body = items[spec_key_index(items, v@)].3;
                    if body.len() == 0 {
                        r is Empty
                    } else {
                        r matches ChangelogEntry::Changes(c) && c@ == body
                    }
                } else {
                    r is VersionNotPresent
                }
            },
        },
{
    match entry_type {
        ChangelogEntryType::Unreleased => match &changelog.unreleased {
            Some(u) => ChangelogEntry::Changes(u.clone()),
            None => ChangelogEntry::Empty,
        },
        ChangelogEntryType::Version(v) => match release_map_get(&changelog.releases, v.as_str()) {
            None => ChangelogEntry::VersionNotPresent,
            Some(e) => {
                if e.body.as_str().is_empty() {
                    ChangelogEntry::Empty
                } else {
                    ChangelogEntry::Changes(e.body.clone())
                }
            },
        },
    }
}

/// The last pair carrying key `k`; meaningful only when some pair does.
pub open spec fn spec_last_pair_index(pairs: Seq<(String, ChangelogEntry)>, k: Seq<char>) -> int
    decreases pairs.len(),
{
    if pairs.len() == 0 {
        0
    } else if pairs.last().0@ == k {
        pairs.len() - 1
    } else {
        spec_last_pair_index(pairs.drop_last(), k)
    }
}

/// Whether some pair carries key `k`.
pub open spec fn spec_has_pair_key(pairs: Seq<(String, ChangelogEntry)>, k: Seq<char>) -> bool {
    exists|i: int| 0 <= i < pairs.len() && #[trigger] pairs[i].0@ == k
}

/// The section text one buildpack contributes: its heading and its changes,
/// a placeholder for an empty section, nothing for an absent version.
pub open spec fn spec_section_for(k: Seq<char>, e: ChangelogEntry) -> Option<Seq<char>> {
    match e {
        ChangelogEntry::VersionNotPresent => None,
        ChangelogEntry::Empty => Some("## "@ + k + "\n\n- No changes."@),
        ChangelogEntry::Changes(v) => Some("## "@ + k + "\n\n"@ + v@),
    }
}

/// The sections for the first `n` keys, joined by blank lines.
pub open spec fn spec_sections_upto(
    pairs: Seq<(String, ChangelogEntry)>,
    ks: Seq<Seq<char>>,
    n: int,
) -> Seq<char>
    decreases n,
{
    if n <= 0 {
        Seq::empty()
    } else {
        let pre = spec_sections_upto(pairs, ks, n - 1);
        if !spec_has_pair_key(pairs, ks[n - 1]) {
            pre
        } else {
            match spec_section_for(ks[n - 1], pairs[spec_last_pair_index(pairs, ks[n - 1])].1) {
                None => pre,
                Some(t) => if pre.len() == 0 {
                    t
                } else {
                    pre + "\n\n"@ + t
                },
            }
        }
    }
}

/// The aggregated changelog of the given per-buildpack entries.
pub open spec fn spec_generate_changelog(pairs: Seq<(String, ChangelogEntry)>) -> Seq<char> {
    let ks = sorted_unique_upto(
        pairs.map_values(|p: (String, ChangelogEntry)| p.0@),
        pairs.len() as int,
    );
    spec_trim(spec_sections_upto(pairs, ks, ks.len() as int)) + "\n\n"@
}

/// Finds the last pair carrying key `k`.
fn last_pair_index(pairs: &Vec<(String, ChangelogEntry)>, k: &str) -> (r: Option<usize>)
    ensures
        match r {
            Some(i) => spec_has_pair_key(pairs@, k@) && i as int == spec_last_pair_index(
                pairs@,
                k@,
            ) && i < pairs@.len(),
            None => !spec_has_pair_key(pairs@, k@),
        },
{
    let mut i: usize = pairs.len();
    proof {
        assert(pairs@.subrange(0, pairs@.len() as int) =~= pairs@);
    }
    while i > 0
        invariant
            i <= pairs@.len(),
            spec_last_pair_index(pairs@, k@) == spec_last_pair_index(
                pairs@.subrange(0, i as int),
                k@,
            ),
            forall|j: int| i <= j < pairs@.len() ==> #[trigger] pairs@[j].0@ != k@,
        decreases i,
    {
        let ghost p = pairs@.subrange(0, i as int);
        proof {
            assert(p.last() == pairs@[i as int - 1]);
            assert(p.drop_last() =~= pairs@.subrange(0, i as int - 1));
        }
        if str_eq(pairs[i - 1].0.as_str(), k) {
            return Some(i - 1);
        }
        i = i - 1;
    }
    proof {
        if spec_has_pair_key(pairs@, k@) {
            let w = choose|j: int| 0 <= j < pairs@.len() && pairs@[j].0@ == k@;
            assert(pairs@[w].0@ != k@);
        }
    }
    None
}

/// Aggregates per-buildpack changelog entries into one markdown text: one
/// `## <buildpack id>` section per buildpack with an entry, ordered by id
/// (repeated ids keep only their last entry), absent versions skipped, empty
/// sections reading `- No changes.`, and the whole trimmed with one trailing
/// blank line.
pub fn generate_changelog(changes_by_buildpack: &Vec<(String, ChangelogEntry)>) -> (r: String)
    ensures
        r@ == spec_generate_changelog(changes_by_buildpack@),
{
    let ghost keys_view = changes_by_buildpack@.map_values(|p: (String, ChangelogEntry)| p.0@);
    let mut sorted: Vec<String> = Vec::new();
    let mut i: usize = 0;
    while i < changes_by_buildpack.len()
        invariant
            i <= changes_by_buildpack@.len(),
            keys_view == changes_by_buildpack@.map_values(|p: (String, ChangelogEntry)| p.0@),
            sorted@.map_values(|s: String| s@) == sorted_unique_upto(keys_view, i as int),
        decreases changes_by_buildpack@.len() - i,
    {
        sorted = insert_sorted(sorted, changes_by_buildpack[i].0.clone());
        i = i + 1;
    }
    let ghost ks = sorted_unique_upto(keys_view, keys_view.len() as int);
    proof {
        assert(sorted@.map_values(|s: String| s@) == ks);
    }
    let mut joined = String::new();
    let mut t: usize = 0;
    while t < sorted.len()
        invariant
            t <= sorted@.len(),
            sorted@.map_values(|s: String| s@) == ks,
            joined@ == spec_sections_upto(changes_by_buildpack@, ks, t as int),
        decreases sorted@.len() - t,
    {
        let ghost pre = joined@;
        let k = &sorted[t];
        proof {
            assert(sorted@.map_values(|s: String| s@)[t as int] == k@);
        }
        match last_pair_index(changes_by_buildpack, k.as_str()) {
            None => {},
            Some(idx) => {
                match &changes_by_buildpack[idx].1 {
                    ChangelogEntry::VersionNotPresent => {},
                    ChangelogEntry::Empty => {
                        if !joined.as_str().is_empty() {
                            joined.append("\n\n");
                        }
                        joined.append("## ");
                        joined.append(k.as_str());
                        joined.append("\n\n- No changes.");
                    },
                    ChangelogEntry::Changes(v) => {
                        if !joined.as_str().is_empty() {
                            joined.append("\n\n");
                        }
                        joined.append("## ");
                        joined.append(k.as_str());
                        joined.append("\n\n");
                        joined.append(v.as_str());
                    },
                }
            },
        }
        t = t + 1;
        proof {
            assert(joined@ =~= spec_sections_upto(changes_by_buildpack@, ks, t as int));
        }
    }
    let mut out = trim_str(joined.as_str());
    out.append("\n\n");
    proof {
        assert(out@ =~= spec_generate_changelog(changes_by_buildpack@));
    }
    out
}

} // verus!
