//! The canonical block decomposition of a rendered document, and the proof
//! that parsing it yields the document back. `render_doc` pins the text the
//! serializer writes; `canonical_blocks` names the block structure of that
//! text — the preamble, the Unreleased section with its pending body, and
//! one section per release — with each body block's character span. Parsing
//! those blocks against the rendered text recovers exactly the document, so
//! a serialize-and-reparse of a canonical document is the identity, as far
//! as the Markdown scanner returns this decomposition.

use vstd::prelude::*;
use crate::changelog::{
    current_header_at, headers_of, headers_upto, is_body_block, spans_for, spans_for_upto,
    step_header, wf_item, BlockItem, RelItem,
};
use crate::releases::spec_distinct_keys;
use crate::render::{
    entry_head, lemma_render_entries_split, render_doc, render_entries, render_entry,
    render_unreleased, spec_preamble,
};
use crate::roundtrip::{release_heading, unreleased_heading};
use crate::text::spec_trim;

verus! {

/// A heading block of the given depth and text.
pub open spec fn heading_block(depth: u8, text: Seq<char>) -> BlockItem {
    (0u8, depth, text, None)
}

/// A non-heading block with the given span.
pub open spec fn other_block(span: Option<(usize, usize)>) -> BlockItem {
    (2u8, 0u8, Seq::<char>::empty(), span)
}

/// A section: its depth-2 heading, then its body blocks.
pub open spec fn section(h: Seq<char>, body: Seq<BlockItem>) -> Seq<BlockItem> {
    seq![heading_block(2, h)] + body
}

// ---------------------------------------------------------------------------
// How headers, spans, and the open section respond to appended blocks.
// ---------------------------------------------------------------------------

proof fn lemma_current_header_prefix(a: Seq<BlockItem>, b: Seq<BlockItem>, i: int)
    requires
        0 <= i <= a.len(),
    ensures
        current_header_at(a + b, i) == current_header_at(a, i),
    decreases i,
{
    if i > 0 {
        lemma_current_header_prefix(a, b, i - 1);
        assert((a + b)[i - 1] == a[i - 1]);
    }
}

proof fn lemma_headers_upto_prefix(a: Seq<BlockItem>, b: Seq<BlockItem>, n: int)
    requires
        0 <= n <= a.len(),
    ensures
        headers_upto(a + b, n) == headers_upto(a, n),
    decreases n,
{
    if n > 0 {
        lemma_headers_upto_prefix(a, b, n - 1);
        assert((a + b)[n - 1] == a[n - 1]);
    }
}

proof fn lemma_spans_upto_prefix(a: Seq<BlockItem>, b: Seq<BlockItem>, h: Seq<char>, n: int)
    requires
        0 <= n <= a.len(),
    ensures
        spans_for_upto(a + b, h, n) == spans_for_upto(a, h, n),
    decreases n,
{
    if n > 0 {
        lemma_spans_upto_prefix(a, b, h, n - 1);
        assert((a + b)[n - 1] == a[n - 1]);
        lemma_current_header_prefix(a, b, n - 1);
    }
}

/// One appended block extends the headers, the spans, and the open section
/// in the expected way.
proof fn lemma_append_block(a: Seq<BlockItem>, x: BlockItem, h: Seq<char>)
    ensures
        headers_of(a.push(x)) == (if x.0 == 0u8 && x.1 == 2u8 {
            headers_of(a).push(x.2)
        } else {
            headers_of(a)
        }),
        spans_for(a.push(x), h) == (if is_body_block(x) && current_header_at(a, a.len() as int)
            == Some(h) {
            spans_for(a, h).push(x.3)
        } else {
            spans_for(a, h)
        }),
        current_header_at(a.push(x), a.len() as int + 1) == step_header(
            current_header_at(a, a.len() as int),
            x,
        ),
{
    let ab = a.push(x);
    assert(ab =~= a + seq![x]);
    lemma_headers_upto_prefix(a, seq![x], a.len() as int);
    lemma_spans_upto_prefix(a, seq![x], h, a.len() as int);
    lemma_current_header_prefix(a, seq![x], a.len() as int);
    assert(ab[a.len() as int] == x);
}

/// Appending a whole section: its heading joins the headers, its body spans
/// join the spans pooled under its heading text and no other, and it leaves
/// its own heading open.
proof fn lemma_append_section(
    a: Seq<BlockItem>,
    h: Seq<char>,
    body: Seq<BlockItem>,
    target: Seq<char>,
)
    requires
        forall|j: int| 0 <= j < body.len() ==> is_body_block(#[trigger] body[j]),
    ensures
        headers_of(a + section(h, body)) == headers_of(a).push(h),
        current_header_at(a + section(h, body), a.len() as int + section(h, body).len() as int) == Some(h),
        target == h ==> spans_for(a + section(h, body), target) == spans_for(a, target)
            + body.map_values(|b: BlockItem| b.3),
        target != h ==> spans_for(a + section(h, body), target) == spans_for(a, target),
    decreases body.len(),
{
    if body.len() == 0 {
        assert(a + section(h, body) =~= a.push(heading_block(2, h)));
        lemma_append_block(a, heading_block(2, h), target);
        assert(body.map_values(|b: BlockItem| b.3) =~= Seq::<Option<(usize, usize)>>::empty());
        assert(spans_for(a, target) + Seq::<Option<(usize, usize)>>::empty() =~= spans_for(
            a,
            target,
        ));
    } else {
        let w = body.drop_last();
        let bb = body.last();
        assert(forall|j: int| 0 <= j < w.len() ==> #[trigger] w[j] == body[j]);
        lemma_append_section(a, h, w, target);
        assert(a + section(h, body) =~= (a + section(h, w)).push(bb));
        lemma_append_block(a + section(h, w), bb, target);
        assert(is_body_block(bb));
        assert(!(bb.0 == 0u8 && bb.1 == 2u8));
        if target == h {
            assert(body.map_values(|b: BlockItem| b.3) =~= w.map_values(|b: BlockItem| b.3).push(
                bb.3,
            ));
            assert(spans_for(a, target) + w.map_values(|b: BlockItem| b.3).push(bb.3) =~= (
            spans_for(a, target) + w.map_values(|b: BlockItem| b.3)).push(bb.3));
        }
    }
}

// ---------------------------------------------------------------------------
// The canonical blocks of a rendered document.
// ---------------------------------------------------------------------------

/// The blocks of the preamble: the title heading and two paragraphs, before
/// any section opens.
pub open spec fn preamble_blocks() -> Seq<BlockItem> {
    seq![heading_block(1, "Changelog"@), other_block(None), other_block(None)]
}

/// The body blocks of the Unreleased section: one block spanning the pending
/// body, or none.
pub open spec fn unreleased_body_blocks(u: Option<Seq<char>>) -> Seq<BlockItem> {
    match u {
        Some(x) => seq![
            other_block(
                Some(
                    (
                        (spec_preamble().len() + "\n\n## [Unreleased]\n\n"@.len()) as usize,
                        (spec_preamble().len() + "\n\n## [Unreleased]\n\n"@.len()
                            + x.len()) as usize,
                    ),
                ),
            ),
        ],
        None => Seq::empty(),
    }
}

/// The spans of one release section's body blocks: one block spanning the
/// body, or none when the body is empty. `off` is where the section's
/// rendering starts.
pub open spec fn entry_spans(item: RelItem, off: int) -> Seq<Option<(usize, usize)>> {
    if item.3.len() == 0 {
        Seq::empty()
    } else {
        seq![
            Some(
                (
                    (off + entry_head(item).len() + 2) as usize,
                    (off + entry_head(item).len() + 2 + item.3.len()) as usize,
                ),
            ),
        ]
    }
}

/// The body blocks of one release section.
pub open spec fn entry_body_blocks(item: RelItem, off: int) -> Seq<BlockItem> {
    entry_spans(item, off).map_values(|sp: Option<(usize, usize)>| other_block(sp))
}

/// The blocks of the release sections, each section's offset advanced by the
/// rendering before it.
pub open spec fn entries_blocks(items: Seq<RelItem>, off0: int) -> Seq<BlockItem>
    decreases items.len(),
{
    if items.len() == 0 {
        Seq::empty()
    } else {
        entries_blocks(items.drop_last(), off0) + section(
            release_heading(items.last()),
            entry_body_blocks(
                items.last(),
                off0 + render_entries(items.drop_last()).len() as int,
            ),
        )
    }
}

/// The canonical block decomposition of a rendered document.
pub open spec fn canonical_blocks(u: Option<Seq<char>>, items: Seq<RelItem>) -> Seq<BlockItem> {
    preamble_blocks() + section(unreleased_heading(), unreleased_body_blocks(u)) + entries_blocks(
        items,
        spec_preamble().len() as int + render_unreleased(u).len() as int,
    )
}

// ---------------------------------------------------------------------------
// Distinct releases render distinct headings.
// ---------------------------------------------------------------------------

/// No character of a canonical version string is a closing bracket.
proof fn lemma_key_has_no_bracket(item: RelItem)
    requires
        wf_item(item),
    ensures
        forall|j: int| 0 <= j < item.0.len() ==> #[trigger] item.0[j] != ']',
{
    reveal_strlit(".");
    let v = crate::version::Version { major: item.1.0, minor: item.1.1, patch: item.1.2 };
    crate::text::lemma_nat_digits(v.major as int);
    crate::text::lemma_nat_digits(v.minor as int);
    crate::text::lemma_nat_digits(v.patch as int);
    let dm = crate::text::nat_digits(v.major as int);
    let dn = crate::text::nat_digits(v.minor as int);
    let dp = crate::text::nat_digits(v.patch as int);
    assert(item.0 == dm + "."@ + dn + "."@ + dp);
    assert forall|j: int| 0 <= j < item.0.len() implies #[trigger] item.0[j] != ']' by {
        let k = item.0;
        if j < dm.len() {
            assert(k[j] == dm[j] && crate::text::is_digit(dm[j]));
        } else if j == dm.len() {
            assert(k[j] == '.');
        } else if j < dm.len() + 1 + dn.len() {
            assert(k[j] == dn[j - dm.len() - 1] && crate::text::is_digit(dn[j - dm.len() - 1]));
        } else if j == dm.len() + 1 + dn.len() {
            assert(k[j] == '.');
        } else {
            assert(k[j] == dp[j - dm.len() - dn.len() - 2] && crate::text::is_digit(
                dp[j - dm.len() - dn.len() - 2],
            ));
        }
    }
}

/// The first closing bracket of a release heading stands right after the
/// version key.
proof fn lemma_heading_bracket_position(item: RelItem)
    requires
        wf_item(item),
    ensures
        crate::text::spec_find_char(release_heading(item), ']', 0) == 1 + item.0.len(),
{
    lemma_key_has_no_bracket(item);
    let h = release_heading(item);
    let klen = item.0.len() as int;
    assert(h[0] == '[');
    assert(forall|j: int| 0 <= j < klen ==> #[trigger] h[1 + j] == item.0[j]);
    assert(h[1 + klen] == ']');
    assert forall|j: int| 0 <= j < 1 + klen implies #[trigger] h[j] != ']' by {
        if j >= 1 {
            assert(h[j] == item.0[j - 1]);
        }
    }
    crate::text::lemma_find_char_exact(h, ']', 0, 1 + klen);
}

/// Releases under distinct keys render distinct headings.
proof fn lemma_release_heading_injective(i1: RelItem, i2: RelItem)
    requires
        wf_item(i1),
        wf_item(i2),
        i1.0 != i2.0,
    ensures
        release_heading(i1) != release_heading(i2),
{
    if release_heading(i1) == release_heading(i2) {
        lemma_heading_bracket_position(i1);
        lemma_heading_bracket_position(i2);
        let klen = i1.0.len() as int;
        assert(i2.0.len() == i1.0.len());
        assert(release_heading(i1).subrange(1, 1 + klen) =~= i1.0);
        assert(release_heading(i2).subrange(1, 1 + klen) =~= i2.0);
    }
}

/// No release heading is the Unreleased heading.
proof fn lemma_release_heading_not_unreleased(item: RelItem)
    requires
        wf_item(item),
    ensures
        release_heading(item) != unreleased_heading(),
{
    crate::roundtrip::lemma_unreleased_heading_classifies();
    crate::roundtrip::lemma_release_heading_classifies(item, Seq::<char>::empty());
}

// ---------------------------------------------------------------------------
// What the canonical blocks scan to.
// ---------------------------------------------------------------------------

/// Appending the release sections puts each heading into the headers, in
/// order.
proof fn lemma_entries_headers(pre: Seq<BlockItem>, items: Seq<RelItem>, off0: int)
    ensures
        headers_of(pre + entries_blocks(items, off0)) == headers_of(pre) + items.map_values(
            |it: RelItem| release_heading(it),
        ),
    decreases items.len(),
{
    let hmap = items.map_values(|it: RelItem| release_heading(it));
    if items.len() == 0 {
        assert(pre + entries_blocks(items, off0) =~= pre);
        assert(headers_of(pre) + hmap =~= headers_of(pre));
    } else {
        let w = items.drop_last();
        let last = items.last();
        let offl = off0 + render_entries(w).len() as int;
        let body = entry_body_blocks(last, offl);
        lemma_entries_headers(pre, w, off0);
        let base = pre + entries_blocks(w, off0);
        assert(pre + entries_blocks(items, off0) =~= base + section(release_heading(last), body));
        assert(forall|j: int| 0 <= j < body.len() ==> is_body_block(#[trigger] body[j]));
        lemma_append_section(base, release_heading(last), body, release_heading(last));
        assert((headers_of(pre) + w.map_values(|it: RelItem| release_heading(it))).push(
            release_heading(last),
        ) =~= headers_of(pre) + hmap);
    }
}

/// A heading that belongs to no release keeps its spans when the release
/// sections are appended.
proof fn lemma_entries_spans_other(
    pre: Seq<BlockItem>,
    items: Seq<RelItem>,
    off0: int,
    other: Seq<char>,
)
    requires
        forall|t: int| 0 <= t < items.len() ==> release_heading(#[trigger] items[t]) != other,
    ensures
        spans_for(pre + entries_blocks(items, off0), other) == spans_for(pre, other),
    decreases items.len(),
{
    if items.len() == 0 {
        assert(pre + entries_blocks(items, off0) =~= pre);
    } else {
        let w = items.drop_last();
        let last = items.last();
        let offl = off0 + render_entries(w).len() as int;
        let body = entry_body_blocks(last, offl);
        assert(forall|j: int| 0 <= j < w.len() ==> #[trigger] w[j] == items[j]);
        lemma_entries_spans_other(pre, w, off0, other);
        let base = pre + entries_blocks(w, off0);
        assert(pre + entries_blocks(items, off0) =~= base + section(release_heading(last), body));
        assert(forall|j: int| 0 <= j < body.len() ==> is_body_block(#[trigger] body[j]));
        lemma_append_section(base, release_heading(last), body, other);
        assert(release_heading(items[items.len() - 1]) != other);
    }
}

/// Appending the release sections pools exactly one release's body spans
/// under that release's heading.
proof fn lemma_entries_spans_at(pre: Seq<BlockItem>, items: Seq<RelItem>, off0: int, t: int)
    requires
        forall|s: int, r: int|
            0 <= s < r < items.len() ==> release_heading(#[trigger] items[s]) != release_heading(
                #[trigger] items[r],
            ),
        0 <= t < items.len(),
    ensures
        spans_for(pre + entries_blocks(items, off0), release_heading(items[t])) == spans_for(
            pre,
            release_heading(items[t]),
        ) + entry_spans(items[t], off0 + render_entries(items.subrange(0, t)).len()),
    decreases items.len(),
{
    let w = items.drop_last();
    let last = items.last();
    let offl = off0 + render_entries(w).len() as int;
    let body = entry_body_blocks(last, offl);
    assert(forall|j: int| 0 <= j < w.len() ==> #[trigger] w[j] == items[j]);
    let base = pre + entries_blocks(w, off0);
    assert(pre + entries_blocks(items, off0) =~= base + section(release_heading(last), body));
    assert(forall|j: int| 0 <= j < body.len() ==> is_body_block(#[trigger] body[j]));
    lemma_append_section(base, release_heading(last), body, release_heading(items[t]));
    if t < items.len() - 1 {
        assert(release_heading(items[t]) != release_heading(items[items.len() - 1]));
        lemma_entries_spans_at(pre, w, off0, t);
        assert(w.subrange(0, t) =~= items.subrange(0, t));
    } else {
        assert(items[t] == last);
        assert forall|r: int|
            0 <= r < w.len() implies release_heading(#[trigger] w[r]) != release_heading(last) by {
            assert(w[r] == items[r]);
        }
        lemma_entries_spans_other(pre, w, off0, release_heading(last));
        assert(body.map_values(|b: BlockItem| b.3) =~= entry_spans(last, offl));
        assert(items.subrange(0, t) =~= w);
    }
}

/// The preamble opens no section and contributes no headers or spans.
proof fn lemma_preamble_blocks(target: Seq<char>)
    ensures
        headers_of(preamble_blocks()) == Seq::<Seq<char>>::empty(),
        spans_for(preamble_blocks(), target) == Seq::<Option<(usize, usize)>>::empty(),
        current_header_at(preamble_blocks(), 3) == None::<Seq<char>>,
{
    let e = Seq::<BlockItem>::empty();
    let p1 = e.push(heading_block(1, "Changelog"@));
    let p2 = p1.push(other_block(None));
    let p3 = p2.push(other_block(None));
    assert(preamble_blocks() =~= p3);
    assert(headers_of(e) =~= Seq::<Seq<char>>::empty());
    assert(spans_for(e, target) =~= Seq::<Option<(usize, usize)>>::empty());
    lemma_append_block(e, heading_block(1, "Changelog"@), target);
    lemma_append_block(p1, other_block(None), target);
    lemma_append_block(p2, other_block(None), target);
}

/// Distinct keys render pairwise distinct headings, none of them the
/// Unreleased heading.
proof fn lemma_headings_distinct(items: Seq<RelItem>)
    requires
        spec_distinct_keys(items),
        forall|t: int| 0 <= t < items.len() ==> wf_item(#[trigger] items[t]),
    ensures
        forall|s: int, r: int|
            0 <= s < r < items.len() ==> release_heading(#[trigger] items[s]) != release_heading(
                #[trigger] items[r],
            ),
        forall|t: int|
            0 <= t < items.len() ==> release_heading(#[trigger] items[t]) != unreleased_heading(),
{
    assert forall|s: int, r: int| 0 <= s < r < items.len() implies release_heading(
        #[trigger] items[s],
    ) != release_heading(#[trigger] items[r]) by {
        lemma_release_heading_injective(items[s], items[r]);
    }
    assert forall|t: int| 0 <= t < items.len() implies release_heading(#[trigger] items[t])
        != unreleased_heading() by {
        lemma_release_heading_not_unreleased(items[t]);
    }
}

/// The canonical blocks scan to the canonical sections: the Unreleased
/// heading first with its body block, then one heading per release with its
/// body block.
proof fn lemma_canonical_blocks_scan(u: Option<Seq<char>>, items: Seq<RelItem>)
    requires
        spec_distinct_keys(items),
        forall|t: int| 0 <= t < items.len() ==> wf_item(#[trigger] items[t]),
    ensures
        headers_of(canonical_blocks(u, items)) == seq![unreleased_heading()] + items.map_values(
            |it: RelItem| release_heading(it),
        ),
        spans_for(canonical_blocks(u, items), unreleased_heading()) == unreleased_body_blocks(
            u,
        ).map_values(|b: BlockItem| b.3),
        forall|t: int|
            0 <= t < items.len() ==> spans_for(
                canonical_blocks(u, items),
                release_heading(#[trigger] items[t]),
            ) == entry_spans(
                items[t],
                spec_preamble().len() as int + render_unreleased(u).len() as int
                    + render_entries(items.subrange(0, t)).len() as int,
            ),
{
    lemma_headings_distinct(items);
    let ub = unreleased_body_blocks(u);
    let pre = preamble_blocks() + section(unreleased_heading(), ub);
    let ebase = spec_preamble().len() as int + render_unreleased(u).len() as int;
    assert(canonical_blocks(u, items) =~= pre + entries_blocks(items, ebase));
    assert(forall|j: int| 0 <= j < ub.len() ==> is_body_block(#[trigger] ub[j]));
    // headers
    lemma_preamble_blocks(unreleased_heading());
    lemma_append_section(preamble_blocks(), unreleased_heading(), ub, unreleased_heading());
    lemma_entries_headers(pre, items, ebase);
    assert(headers_of(pre) =~= seq![unreleased_heading()]);
    // spans at the unreleased heading
    lemma_entries_spans_other(pre, items, ebase, unreleased_heading());
    assert(spans_for(pre, unreleased_heading()) =~= ub.map_values(|b: BlockItem| b.3));
    assert(spans_for(canonical_blocks(u, items), unreleased_heading()) =~= ub.map_values(
        |b: BlockItem| b.3,
    ));
    // spans at each release heading
    assert forall|t: int| 0 <= t < items.len() implies spans_for(
        canonical_blocks(u, items),
        release_heading(#[trigger] items[t]),
    ) == entry_spans(
        items[t],
        spec_preamble().len() as int + render_unreleased(u).len() as int + render_entries(
            items.subrange(0, t),
        ).len() as int,
    ) by {
        lemma_preamble_blocks(release_heading(items[t]));
        lemma_append_section(
            preamble_blocks(),
            unreleased_heading(),
            ub,
            release_heading(items[t]),
        );
        assert(spans_for(pre, release_heading(items[t])) =~= Seq::<Option<(usize, usize)>>::empty());
        lemma_entries_spans_at(pre, items, ebase, t);
        assert(Seq::<Option<(usize, usize)>>::empty() + entry_spans(items[t], ebase + render_entries(
            items.subrange(0, t),
        ).len()) =~= entry_spans(items[t], ebase + render_entries(items.subrange(0, t)).len()));
    }
}


// ---------------------------------------------------------------------------
// The round trip itself.
// ---------------------------------------------------------------------------

/// The parse premises of a canonical document, shared by the helper proofs.
pub open spec fn canonical_doc(u: Option<Seq<char>>, items: Seq<RelItem>) -> bool {
    &&& spec_distinct_keys(items)
    &&& forall|t: int| 0 <= t < items.len() ==> wf_item(#[trigger] items[t])
    &&& forall|t: int| 0 <= t < items.len() ==> #[trigger] items[t].3 == spec_trim(items[t].3)
    &&& match u {
        Some(x) => x.len() > 0 && x == spec_trim(x),
        None => true,
    }
    &&& render_doc(u, items).len() <= usize::MAX
}

/// The scanned Unreleased section of a canonical rendering carries the
/// pending body.
#[verifier::rlimit(50)]
proof fn lemma_unreleased_body_recovered(u: Option<Seq<char>>, items: Seq<RelItem>)
    requires
        canonical_doc(u, items),
    ensures
        crate::changelog::body_for(
            render_doc(u, items),
            canonical_blocks(u, items),
            unreleased_heading(),
        ) == (match u {
            Some(x) => x,
            None => Seq::<char>::empty(),
        }),
{
    let text = render_doc(u, items);
    let blocks = canonical_blocks(u, items);
    lemma_canonical_blocks_scan(u, items);
    let ulit = "\n\n## [Unreleased]\n\n"@;
    match u {
        None => {
            assert(unreleased_body_blocks(u).map_values(|b: BlockItem| b.3) =~= Seq::<
                Option<(usize, usize)>,
            >::empty());
        },
        Some(x) => {
            let s = spec_preamble().len() as int + ulit.len() as int;
            let e = s + x.len() as int;
            let ns = spans_for(blocks, unreleased_heading());
            assert(ns =~= seq![Some((s as usize, e as usize))]);
            assert(render_unreleased(u) == ulit + x);
            assert(text =~= (spec_preamble() + ulit + x) + (render_entries(items) + "\n"@));
            assert(e <= text.len());
            assert((s as usize) as int == s && (e as usize) as int == e);
            assert(text.subrange(s, e) =~= x);
            assert(crate::changelog::body_for(text, blocks, unreleased_heading()) == spec_trim(
                x,
            ));
        },
    }
}

/// Where one release's body stands in the rendered text.
#[verifier::rlimit(100)]
proof fn lemma_entry_body_slice(u: Option<Seq<char>>, items: Seq<RelItem>, t: int)
    requires
        canonical_doc(u, items),
        0 <= t < items.len(),
        items[t].3.len() > 0,
    ensures
        ({
            let off = spec_preamble().len() as int + render_unreleased(u).len() as int
                + render_entries(items.subrange(0, t)).len() as int;
            let s = off + entry_head(items[t]).len() as int + 2;
            let e = s + items[t].3.len() as int;
            &&& 0 <= s <= e <= render_doc(u, items).len()
            &&& render_doc(u, items).subrange(s, e) == items[t].3
        }),
{
    reveal_strlit("\n\n");
    let text = render_doc(u, items);
    let item = items[t];
    let off = spec_preamble().len() as int + render_unreleased(u).len() as int + render_entries(
        items.subrange(0, t),
    ).len() as int;
    let s = off + entry_head(item).len() as int + 2;
    let e = s + item.3.len() as int;
    lemma_render_entries_split(items, t);
    assert(render_entry(item) == entry_head(item) + "\n\n"@ + spec_trim(item.3));
    assert(spec_trim(item.3) == item.3);
    let a = spec_preamble() + render_unreleased(u) + render_entries(items.subrange(0, t))
        + entry_head(item) + "\n\n"@;
    let c = render_entries(items.subrange(t + 1, items.len() as int)) + "\n"@;
    assert(a.len() == s);
    assert(text =~= a + item.3 + c);
    assert(e <= text.len());
    assert(text.subrange(s, e) =~= item.3);
}

/// The scanned section of one release in a canonical rendering carries that
/// release's body.
proof fn lemma_entry_body_recovered(u: Option<Seq<char>>, items: Seq<RelItem>, t: int)
    requires
        canonical_doc(u, items),
        0 <= t < items.len(),
        spans_for(canonical_blocks(u, items), release_heading(items[t])) == entry_spans(
            items[t],
            spec_preamble().len() as int + render_unreleased(u).len() as int + render_entries(
                items.subrange(0, t),
            ).len() as int,
        ),
    ensures
        crate::changelog::body_for(
            render_doc(u, items),
            canonical_blocks(u, items),
            release_heading(items[t]),
        ) == items[t].3,
{
    let text = render_doc(u, items);
    let blocks = canonical_blocks(u, items);
    let item = items[t];
    let off = spec_preamble().len() as int + render_unreleased(u).len() as int + render_entries(
        items.subrange(0, t),
    ).len() as int;
    let ns = spans_for(blocks, release_heading(item));
    if item.3.len() == 0 {
        assert(ns =~= Seq::<Option<(usize, usize)>>::empty());
    } else {
        let s = off + entry_head(item).len() as int + 2;
        let e = s + item.3.len() as int;
        lemma_entry_body_slice(u, items, t);
        assert(ns =~= seq![Some((s as usize, e as usize))]);
        assert((s as usize) as int == s && (e as usize) as int == e);
        assert(crate::changelog::body_for(text, blocks, release_heading(item)) == spec_trim(
            item.3,
        ));
        assert(spec_trim(item.3) == item.3);
    }
}

/// Serialize-and-reparse is the identity on canonical documents: parsing the
/// canonical blocks of a rendered document against the rendered text yields
/// exactly the document back. A canonical document has distinct, well-formed
/// releases with trimmed bodies and a trimmed, non-empty pending body when
/// one is pending.
pub proof fn lemma_render_parse_round_trip(u: Option<Seq<char>>, items: Seq<RelItem>)
    requires
        canonical_doc(u, items),
    ensures
        crate::changelog::parse_blocks_spec(render_doc(u, items), canonical_blocks(u, items))
            == Ok::<(Option<Seq<char>>, Seq<RelItem>), crate::changelog::SpecParseErr>(
            (u, items),
        ),
{
    let text = render_doc(u, items);
    let blocks = canonical_blocks(u, items);
    lemma_canonical_blocks_scan(u, items);
    lemma_unreleased_body_recovered(u, items);
    assert forall|t: int| 0 <= t < items.len() implies crate::changelog::body_for(
        text,
        blocks,
        release_heading(#[trigger] items[t]),
    ) == items[t].3 by {
        lemma_entry_body_recovered(u, items, t);
    }
    crate::roundtrip::lemma_canonical_round_trip(text, blocks, u, items);
}

} // verus!
