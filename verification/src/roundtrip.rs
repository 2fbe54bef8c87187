//! The round-trip law: a document already in canonical form survives a
//! serialize-and-reparse unchanged. The serializer's output is pinned by
//! `render_doc`; this module proves that parsing the canonical sections of
//! such a rendering — the `[Unreleased]` heading with the pending body, and
//! one `[version] - date` heading per release with its body — yields exactly
//! the document that was rendered.

use vstd::prelude::*;
use crate::changelog::{
    body_for, date_at, find_date, headers_of, is_unreleased_heading, parse_blocks_spec,
    parse_fold, release_for, version_match, BlockItem, RelItem, SpecParseErr,
};
use crate::date::{spec_date_string, spec_valid_date, Date};
use crate::releases::{spec_distinct_keys, spec_has_key, spec_insert};
use crate::text::{
    all_digits, digits_value, is_digit, lemma_nat_digits, lemma_pad2_value, lemma_pad4_value,
    nat_digits, pad2, pad4,
};
use crate::version::{
    lemma_digit_run_end_exact, spec_digit_run_end, spec_numeric_token, spec_version_from_runs,
    spec_version_string, Version,
};
use crate::changelog::wf_item;

verus! {

/// The heading text the scanner yields for the rendered Unreleased section.
pub open spec fn unreleased_heading() -> Seq<char> {
    seq!['[', 'U', 'n', 'r', 'e', 'l', 'e', 'a', 's', 'e', 'd', ']']
}

/// The heading text the scanner yields for a release entry's rendered
/// section: the bracketed canonical version, a spaced dash, and the ISO
/// date.
pub open spec fn release_heading(item: RelItem) -> Seq<char> {
    seq!['['] + item.0 + seq![']', ' ', '-', ' '] + spec_date_string(
        Date { year: item.2.0, month: item.2.1, day: item.2.2 },
    )
}

/// The rendered Unreleased heading names the unreleased section and no
/// release.
pub proof fn lemma_unreleased_heading_classifies()
    ensures
        is_unreleased_heading(unreleased_heading()),
        version_match(unreleased_heading()) is None,
        release_for(unreleased_heading(), Seq::<char>::empty()) == Ok::<
            Option<RelItem>,
            SpecParseErr,
        >(None),
{
    let h = unreleased_heading();
    assert(h[0] == '[');
    assert(crate::changelog::unreleased_word_at(h, 1));
    assert(is_unreleased_heading(h));
    assert(spec_digit_run_end(h, 1) == 1) by {
        lemma_digit_run_end_exact(h, 1, 1);
    }
    assert(version_match(h) is None);
}

/// A rendered release heading is not the unreleased section, and classifies
/// back to exactly the release it was rendered from, whatever body stands
/// under it.
pub proof fn lemma_release_heading_classifies(item: RelItem, body: Seq<char>)
    requires
        wf_item(item),
    ensures
        !is_unreleased_heading(release_heading(item)),
        release_for(release_heading(item), body) == Ok::<Option<RelItem>, SpecParseErr>(
            Some((item.0, item.1, item.2, body)),
        ),
{
    reveal_strlit(".");
    reveal_strlit("-");
    let h = release_heading(item);
    let v = Version { major: item.1.0, minor: item.1.1, patch: item.1.2 };
    let dm = nat_digits(v.major as int);
    let dn = nat_digits(v.minor as int);
    let dp = nat_digits(v.patch as int);
    lemma_nat_digits(v.major as int);
    lemma_nat_digits(v.minor as int);
    lemma_nat_digits(v.patch as int);
    let key = item.0;
    assert(key == dm + "."@ + dn + "."@ + dp);
    let lm = dm.len() as int;
    let ln = dn.len() as int;
    let lp = dp.len() as int;
    let klen = key.len() as int;
    assert(klen == lm + 1 + ln + 1 + lp);
    let y = item.2.0 as int;
    let mo = item.2.1 as int;
    let dd = item.2.2 as int;
    lemma_pad4_value(y);
    lemma_pad2_value(mo);
    lemma_pad2_value(dd);
    let ds = klen + 5;
    assert(h.len() == ds + 10);
    // Position facts across the concatenation.
    assert(h[0] == '[');
    assert forall|j: int| 0 <= j < klen implies #[trigger] h[1 + j] == key[j] by {}
    assert(h[klen + 1] == ']');
    assert(h[klen + 2] == ' ');
    assert(h[klen + 3] == '-');
    assert(h[klen + 4] == ' ');
    let dstr = spec_date_string(Date { year: item.2.0, month: item.2.1, day: item.2.2 });
    assert forall|j: int| 0 <= j < 10 implies #[trigger] h[ds + j] == dstr[j] by {}
    assert(dstr == pad4(y) + "-"@ + pad2(mo) + "-"@ + pad2(dd));
    assert forall|j: int| 0 <= j < 4 implies is_digit(#[trigger] dstr[j]) by {
        assert(dstr[j] == pad4(y)[j]);
    }
    assert(dstr[4] == '-');
    assert(dstr[5] == pad2(mo)[0] && dstr[6] == pad2(mo)[1]);
    assert(dstr[7] == '-');
    assert(dstr[8] == pad2(dd)[0] && dstr[9] == pad2(dd)[1]);
    // Not the unreleased heading: the character after `[` is a digit.
    assert(h[1] == key[0] && key[0] == dm[0]);
    assert(is_digit(h[1]));
    assert(!crate::changelog::eqi(h[1], 'u'));
    assert(!is_unreleased_heading(h));
    // The version shape: three digit runs joined by dots, then `]`.
    assert forall|j: int| 0 <= j < lm implies #[trigger] key[j] == dm[j] by {}
    assert(key[lm] == '.');
    assert forall|j: int| 0 <= j < ln implies #[trigger] key[lm + 1 + j] == dn[j] by {}
    assert(key[lm + 1 + ln] == '.');
    assert forall|j: int| 0 <= j < lp implies #[trigger] key[lm + 1 + ln + 1 + j] == dp[j] by {}
    let a1 = 1 + lm;
    let b1 = a1 + 1 + ln;
    let c1 = b1 + 1 + lp;
    assert(spec_digit_run_end(h, 1) == a1) by {
        assert(forall|j: int| 1 <= j < a1 ==> is_digit(#[trigger] h[j]));
        assert(h[a1] == key[lm]);
        lemma_digit_run_end_exact(h, 1, a1);
    }
    assert(h[a1] == '.');
    assert(spec_digit_run_end(h, a1 + 1) == b1) by {
        assert(forall|j: int| a1 + 1 <= j < b1 ==> is_digit(#[trigger] h[j]));
        assert(h[b1] == key[lm + 1 + ln]);
        lemma_digit_run_end_exact(h, a1 + 1, b1);
    }
    assert(h[b1] == '.');
    assert(spec_digit_run_end(h, b1 + 1) == c1) by {
        assert(forall|j: int| b1 + 1 <= j < c1 ==> is_digit(#[trigger] h[j]));
        assert(h[c1] == ']');
        lemma_digit_run_end_exact(h, b1 + 1, c1);
    }
    assert(c1 == klen + 1);
    assert(h[c1] == ']' && c1 < h.len());
    let after = c1 + 1;
    // The first date shape stands exactly at the date's start.
    assert(date_at(h, ds)) by {
        assert(h[ds] == dstr[0] && h[ds + 1] == dstr[1] && h[ds + 2] == dstr[2] && h[ds + 3]
            == dstr[3]);
        assert(h[ds + 4] == dstr[4]);
        assert(h[ds + 5] == dstr[5] && h[ds + 6] == dstr[6]);
        assert(h[ds + 7] == dstr[7]);
        assert(h[ds + 8] == dstr[8] && h[ds + 9] == dstr[9]);
    }
    assert(!date_at(h, after)) by {
        assert(h[after] == ' ');
    }
    assert(!date_at(h, after + 1)) by {
        assert(h[after + 1] == '-');
    }
    assert(!date_at(h, after + 2)) by {
        assert(h[after + 2] == ' ');
    }
    assert(find_date(h, after) == Some(ds)) by {
        assert(after + 10 <= h.len());
        assert(after + 1 + 10 <= h.len());
        assert(after + 2 + 10 <= h.len());
        assert(find_date(h, after) == find_date(h, after + 1));
        assert(find_date(h, after + 1) == find_date(h, after + 2));
        assert(find_date(h, after + 2) == find_date(h, ds));
        assert(find_date(h, ds) == Some(ds));
    }
    assert(version_match(h) == Some((1int, a1, b1, ds)));
    // The runs denote the release's own version.
    assert(h.subrange(1, a1) =~= dm);
    assert(h.subrange(a1 + 1, b1) =~= dn);
    assert(h.subrange(b1 + 1, c1) =~= dp);
    assert(spec_numeric_token(dm));
    assert(spec_numeric_token(dn));
    assert(spec_numeric_token(dp));
    assert(spec_version_from_runs(h, 1, a1, a1 + 1, b1, b1 + 1, c1) == Some(v));
    // The date digits denote the release's own date.
    assert(h.subrange(ds, ds + 4) =~= pad4(y));
    assert(h.subrange(ds + 5, ds + 7) =~= pad2(mo));
    assert(h.subrange(ds + 8, ds + 10) =~= pad2(dd));
    assert(digits_value(h.subrange(ds, ds + 4)) == y);
    assert(digits_value(h.subrange(ds + 5, ds + 7)) == mo);
    assert(digits_value(h.subrange(ds + 8, ds + 10)) == dd);
    assert(spec_valid_date(y, mo, dd));
    assert(release_for(h, body) == Ok::<Option<RelItem>, SpecParseErr>(
        Some((spec_version_string(v), (v.major, v.minor, v.patch), (y as u32, mo as u32, dd as u32), body)),
    ));
    assert((spec_version_string(v), (v.major, v.minor, v.patch), (
        y as u32,
        mo as u32,
        dd as u32,
    ), body) == (item.0, item.1, item.2, body));
}

/// Folding the release headings of a canonical rendering, from a state that
/// already holds the first releases, recovers the full release list.
proof fn lemma_parse_fold_releases(
    text: Seq<char>,
    blocks: Seq<BlockItem>,
    hs: Seq<Seq<char>>,
    j: int,
    idx: int,
    u: Option<Seq<char>>,
    items: Seq<RelItem>,
)
    requires
        spec_distinct_keys(items),
        forall|t: int| 0 <= t < items.len() ==> wf_item(#[trigger] items[t]),
        0 <= idx <= items.len(),
        0 <= j <= hs.len(),
        hs.len() - j == items.len() - idx,
        forall|t: int|
            0 <= t < items.len() - idx ==> #[trigger] hs[j + t] == release_heading(
                items[idx + t],
            ),
        forall|t: int|
            0 <= t < items.len() - idx ==> body_for(text, blocks, #[trigger] hs[j + t])
                == items[idx + t].3,
    ensures
        parse_fold(text, blocks, hs, j, u, items.subrange(0, idx)) == Ok::<
            (Option<Seq<char>>, Seq<RelItem>),
            SpecParseErr,
        >((u, items)),
    decreases items.len() - idx,
{
    let rels = items.subrange(0, idx);
    if idx == items.len() {
        assert(j >= hs.len());
        assert(rels =~= items);
    } else {
        let h = hs[j];
        let item = items[idx];
        assert(h == release_heading(item)) by {
            assert(hs[j + 0] == release_heading(items[idx + 0]));
        }
        let body = body_for(text, blocks, h);
        assert(body == item.3) by {
            assert(body_for(text, blocks, hs[j + 0]) == items[idx + 0].3);
        }
        lemma_release_heading_classifies(item, body);
        assert((item.0, item.1, item.2, item.3) == item);
        assert(release_for(h, body) == Ok::<Option<RelItem>, SpecParseErr>(Some(item)));
        assert(!spec_has_key(rels, item.0)) by {
            if spec_has_key(rels, item.0) {
                let w = choose|x: int| 0 <= x < rels.len() && rels[x].0 == item.0;
                assert(items[w].0 == items[idx].0);
            }
        }
        assert(spec_insert(rels, item) =~= items.subrange(0, idx + 1));
        assert forall|t: int| 0 <= t < items.len() - (idx + 1) implies #[trigger] hs[j + 1 + t]
            == release_heading(items[idx + 1 + t]) by {
            assert(hs[j + (t + 1)] == release_heading(items[idx + (t + 1)]));
        }
        assert forall|t: int| 0 <= t < items.len() - (idx + 1) implies body_for(
            text,
            blocks,
            #[trigger] hs[j + 1 + t],
        ) == items[idx + 1 + t].3 by {
            assert(body_for(text, blocks, hs[j + (t + 1)]) == items[idx + (t + 1)].3);
        }
        lemma_parse_fold_releases(text, blocks, hs, j + 1, idx + 1, u, items);
    }
}

/// Round trip of a canonical document through its rendering: when the
/// scanner's sections of the rendered text are the canonical ones — the
/// Unreleased heading first with the pending body (empty when none is
/// pending), then one heading per release with its body — the parse yields
/// exactly the document back.
pub proof fn lemma_canonical_round_trip(
    text: Seq<char>,
    blocks: Seq<BlockItem>,
    u: Option<Seq<char>>,
    items: Seq<RelItem>,
)
    requires
        spec_distinct_keys(items),
        forall|t: int| 0 <= t < items.len() ==> wf_item(#[trigger] items[t]),
        match u {
            Some(x) => x.len() > 0,
            None => true,
        },
        headers_of(blocks) == seq![unreleased_heading()] + items.map_values(
            |it: RelItem| release_heading(it),
        ),
        body_for(text, blocks, unreleased_heading()) == (match u {
            Some(x) => x,
            None => Seq::<char>::empty(),
        }),
        forall|t: int|
            0 <= t < items.len() ==> body_for(text, blocks, release_heading(#[trigger] items[t]))
                == items[t].3,
    ensures
        parse_blocks_spec(text, blocks) == Ok::<(Option<Seq<char>>, Seq<RelItem>), SpecParseErr>(
            (u, items),
        ),
{
    let hs = headers_of(blocks);
    let hmap = items.map_values(|it: RelItem| release_heading(it));
    assert(hs.len() == 1 + items.len());
    lemma_unreleased_heading_classifies();
    assert(hs[0] == unreleased_heading());
    let body0 = body_for(text, blocks, hs[0]);
    assert(parse_fold(text, blocks, hs, 0, None, Seq::<RelItem>::empty()) == parse_fold(
        text,
        blocks,
        hs,
        1,
        u,
        Seq::<RelItem>::empty(),
    )) by {
        match u {
            Some(x) => {
                assert(body0 == x && x.len() > 0);
                assert(is_unreleased_heading(hs[0]));
            },
            None => {
                assert(body0.len() == 0);
                assert(release_for(hs[0], body0) == Ok::<Option<RelItem>, SpecParseErr>(None));
            },
        }
    }
    assert(items.subrange(0, 0) =~= Seq::<RelItem>::empty());
    assert forall|t: int| 0 <= t < items.len() implies #[trigger] hs[1 + t] == release_heading(
        items[t],
    ) by {
        assert(hs[1 + t] == hmap[t]);
    }
    assert forall|t: int| 0 <= t < items.len() implies body_for(text, blocks, #[trigger] hs[1 + t])
        == items[t].3 by {
        assert(hs[1 + t] == release_heading(items[t]));
    }
    lemma_parse_fold_releases(text, blocks, hs, 1, 0, u, items);
}

} // verus!
