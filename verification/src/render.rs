//! Serialization of a changelog document into its canonical Markdown text:
//! the fixed preamble, exactly one Unreleased section, and each release as a
//! `## [version] - date` heading with its body, separated by single blank
//! lines, with one trailing newline.

use vstd::prelude::*;
use crate::changelog::{doc_releases, doc_unreleased, wf_changelog, Changelog, RelItem};
use crate::date::{spec_date_string, Date};
use crate::releases::{item_matches, release_map_values};
use crate::text::{spec_trim, trim_str};
use crate::version::{spec_version_string, Version};

verus! {

/// The fixed preamble of every rendered changelog.
pub open spec fn spec_preamble() -> Seq<char> {
    "# Changelog\n\nAll notable changes to this project will be documented in this file.\n\nThe format is based on [Keep a Changelog](https://keepachangelog.com/en/1.0.0/),\nand this project adheres to [Semantic Versioning](https://semver.org/spec/v2.0.0.html)."@
}

/// The fixed preamble, as text.
pub fn preamble_str() -> (r: &'static str)
    ensures
        r@ == spec_preamble(),
{
    "# Changelog\n\nAll notable changes to this project will be documented in this file.\n\nThe format is based on [Keep a Changelog](https://keepachangelog.com/en/1.0.0/),\nand this project adheres to [Semantic Versioning](https://semver.org/spec/v2.0.0.html)."
}

/// The Unreleased section: its heading always, and the trimmed pending body
/// when one is present.
pub open spec fn render_unreleased(unreleased: Option<Seq<char>>) -> Seq<char> {
    match unreleased {
        Some(u) => "\n\n## [Unreleased]\n\n"@ + spec_trim(u),
        None => "\n\n## [Unreleased]"@,
    }
}

/// The heading line of one release section, with the blank line before it.
pub open spec fn entry_head(item: RelItem) -> Seq<char> {
    "\n\n## ["@ + spec_version_string(
        Version { major: item.1.0, minor: item.1.1, patch: item.1.2 },
    ) + "] - "@ + spec_date_string(Date { year: item.2.0, month: item.2.1, day: item.2.2 })
}

/// One release section: its heading, and its trimmed body when the body is
/// not empty.
pub open spec fn render_entry(item: RelItem) -> Seq<char> {
    if item.3.len() == 0 {
        entry_head(item)
    } else {
        entry_head(item) + "\n\n"@ + spec_trim(item.3)
    }
}

/// All release sections, in order.
pub open spec fn render_entries(items: Seq<RelItem>) -> Seq<char>
    decreases items.len(),
{
    if items.len() == 0 {
        Seq::empty()
    } else {
        render_entries(items.drop_last()) + render_entry(items.last())
    }
}

/// The canonical text of a document.
pub open spec fn render_doc(unreleased: Option<Seq<char>>, items: Seq<RelItem>) -> Seq<char> {
    spec_preamble() + render_unreleased(unreleased) + render_entries(items) + "\n"@
}

/// Rendering release sections distributes over concatenation.
pub proof fn lemma_render_entries_concat(a: Seq<RelItem>, b: Seq<RelItem>)
    ensures
        render_entries(a + b) == render_entries(a) + render_entries(b),
    decreases b.len(),
{
    if b.len() == 0 {
        assert(a + b =~= a);
        assert(render_entries(a) + render_entries(b) =~= render_entries(a));
    } else {
        lemma_render_entries_concat(a, b.drop_last());
        assert((a + b).drop_last() =~= a + b.drop_last());
        assert((a + b).last() == b.last());
        assert(render_entries(a) + (render_entries(b.drop_last()) + render_entry(b.last()))
            =~= (render_entries(a) + render_entries(b.drop_last())) + render_entry(b.last()));
    }
}

/// The rendering of the sections up to and after position `t`.
pub proof fn lemma_render_entries_split(items: Seq<RelItem>, t: int)
    requires
        0 <= t < items.len(),
    ensures
        render_entries(items) == render_entries(items.subrange(0, t)) + render_entry(items[t])
            + render_entries(items.subrange(t + 1, items.len() as int)),
{
    let a = items.subrange(0, t);
    let m = seq![items[t]];
    let b = items.subrange(t + 1, items.len() as int);
    assert(items =~= a + m + b);
    lemma_render_entries_concat(a + m, b);
    lemma_render_entries_concat(a, m);
    assert(m.drop_last() =~= Seq::<RelItem>::empty());
    assert(render_entries(m) == render_entry(items[t])) by {
        assert(render_entries(Seq::<RelItem>::empty()) =~= Seq::<char>::empty());
        assert(render_entries(m) =~= render_entries(m.drop_last()) + render_entry(m.last()));
    }
}

impl Changelog {
    /// The canonical Markdown text of this document. Serialization is total
    /// on well-formed documents; a document that parsed successfully is well
    /// formed.
    pub fn to_text(&self) -> (r: String)
        requires
            wf_changelog(*self),
        ensures
            r@ == render_doc(doc_unreleased(*self), doc_releases(*self)),
    {
        let ghost items = doc_releases(*self);
        let mut out = preamble_str().to_owned();
        match &self.unreleased {
            Some(u) => {
                out.append("\n\n## [Unreleased]\n\n");
                out.append(trim_str(u.as_str()).as_str());
            },
            None => {
                out.append("\n\n## [Unreleased]");
            },
        }
        proof {
            assert(out@ =~= spec_preamble() + render_unreleased(doc_unreleased(*self)));
        }
        let entries = release_map_values(&self.releases);
        let mut i: usize = 0;
        while i < entries.len()
            invariant
                i <= entries@.len(),
                entries@.len() == items.len(),
                items == doc_releases(*self),
                wf_changelog(*self),
                forall|j: int| 0 <= j < items.len() ==> item_matches(#[trigger] items[j], entries@[j]),
                out@ == spec_preamble() + render_unreleased(doc_unreleased(*self))
                    + render_entries(items.subrange(0, i as int)),
            decreases entries@.len() - i,
        {
            let ghost pre = out@;
            let entry = &entries[i];
            proof {
                assert(item_matches(items[i as int], entries@[i as int]));
                assert(wf_changelog(*self));
                assert(crate::changelog::wf_item(items[i as int]));
            }
            out.append("\n\n## [");
            out.append(entry.version.to_text().as_str());
            out.append("] - ");
            out.append(entry.date.to_text().as_str());
            if !entry.body.as_str().is_empty() {
                out.append("\n\n");
                out.append(trim_str(entry.body.as_str()).as_str());
            }
            i = i + 1;
            proof {
                let p = items.subrange(0, i as int);
                assert(p.drop_last() =~= items.subrange(0, i as int - 1));
                assert(p.last() == items[i as int - 1]);
                assert(out@ =~= pre + render_entry(items[i as int - 1]));
                assert(out@ =~= spec_preamble() + render_unreleased(doc_unreleased(*self))
                    + render_entries(p));
            }
        }
        out.append("\n");
        proof {
            assert(items.subrange(0, items.len() as int) =~= items);
            assert(out@ =~= render_doc(doc_unreleased(*self), doc_releases(*self)));
        }
        out
    }
}

} // verus!
