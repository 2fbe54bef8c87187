//! Release promotion: converting the unreleased section's content into a new
//! dated release entry at the head of the release list, merging in extra
//! change lines (one per updated dependency) under a `### Changed`
//! subsection.

use vstd::prelude::*;
use crate::changelog::{doc_releases, doc_unreleased, wf_changelog, wf_item, Changelog, RelItem};
use crate::date::{spec_valid_date, Date};
use crate::releases::{
    entry_repr, item_matches, new_release_map, release_items, release_map_insert,
    release_map_values, spec_distinct_keys, spec_has_key, ReleaseEntry,
};
use crate::text::{
    join_lines, spec_join_lines, spec_lines, spec_str_lt, spec_trim, split_lines, str_eq, str_lt,
    str_to_chars, trim_str, view_opt,
};
use crate::version::{spec_version_string, Version};

verus! {

/// Whether a body line opens a subsection (a deeper heading).
pub open spec fn line_is_subheading(l: Seq<char>) -> bool {
    l.len() >= 3 && l[0] == '#' && l[1] == '#' && l[2] == '#'
}

/// Index of the first line that reads exactly `### Changed`, or the number
/// of lines when there is none.
pub open spec fn spec_changed_index(ls: Seq<Seq<char>>, from: int) -> int
    decreases ls.len() - from,
{
    if from < 0 || from >= ls.len() {
        ls.len() as int
    } else if ls[from] == "### Changed"@ {
        from
    } else {
        spec_changed_index(ls, from + 1)
    }
}

/// Index of the first subsection heading at or after `from`, or the number
/// of lines when there is none: where the `### Changed` subsection ends.
pub open spec fn spec_section_end(ls: Seq<Seq<char>>, from: int) -> int
    decreases ls.len() - from,
{
    if from < 0 || from >= ls.len() {
        ls.len() as int
    } else if line_is_subheading(ls[from]) {
        from
    } else {
        spec_section_end(ls, from + 1)
    }
}

/// The last line in `[lo, hi)` that is not blank, when one exists.
pub open spec fn spec_last_nonempty(ls: Seq<Seq<char>>, lo: int, hi: int) -> Option<int>
    decreases hi - lo,
{
    if hi <= lo || hi > ls.len() || lo < 0 {
        None
    } else if spec_trim(ls[hi - 1]).len() > 0 {
        Some(hi - 1)
    } else {
        spec_last_nonempty(ls, lo, hi - 1)
    }
}

/// The unreleased body with the extra lines merged into its `### Changed`
/// subsection: appended after the subsection's last non-blank line, or right
/// after the heading (behind one blank line) when the subsection is empty.
/// The body is known to hold a `### Changed` line.
pub open spec fn spec_merge_into_changed(u: Seq<char>, extras: Seq<Seq<char>>) -> Seq<char> {
    let ls = spec_lines(u);
    let ci = spec_changed_index(ls, 0);
    let end = spec_section_end(ls, ci + 1);
    match spec_last_nonempty(ls, ci, end) {
        Some(j) => spec_join_lines(ls.subrange(0, j + 1) + extras + ls.subrange(j + 1, ls.len() as int)),
        None => spec_join_lines(
            ls.subrange(0, ci + 1) + seq![Seq::<char>::empty()] + extras + ls.subrange(
                ci + 1,
                ls.len() as int,
            ),
        ),
    }
}

/// The body of a promoted release: the unreleased content with the extra
/// change lines merged in. With no extra lines the unreleased content stands
/// unchanged, or a `No changes.` placeholder when there is none; with extra
/// lines they join an existing `### Changed` subsection or one appended
/// after the existing content.
pub open spec fn spec_merged_body(unreleased: Option<Seq<char>>, extras: Seq<Seq<char>>) -> Seq<
    char,
> {
    let content: Option<Seq<char>> = match unreleased {
        Some(u) => if u.len() > 0 {
            Some(u)
        } else {
            None
        },
        None => None,
    };
    if extras.len() == 0 {
        match content {
            Some(u) => u,
            None => "No changes."@,
        }
    } else {
        match content {
            Some(u) => {
                if spec_changed_index(spec_lines(u), 0) < spec_lines(u).len() {
                    spec_merge_into_changed(u, extras)
                } else {
                    u + "\n\n### Changed\n\n"@ + spec_join_lines(extras)
                }
            },
            None => "### Changed\n\n"@ + spec_join_lines(extras),
        }
    }
}

/// The releases that keep their place when a version is promoted: every item
/// whose key is not the promoted version's, in order, among the first `n`.
pub open spec fn remove_key_upto(items: Seq<RelItem>, k: Seq<char>, n: int) -> Seq<RelItem>
    decreases n,
{
    if n <= 0 {
        Seq::empty()
    } else {
        let prev = remove_key_upto(items, k, n - 1);
        if items[n - 1].0 == k {
            prev
        } else {
            prev.push(items[n - 1])
        }
    }
}

/// All items whose key is not `k`, in order.
pub open spec fn spec_remove_key(items: Seq<RelItem>, k: Seq<char>) -> Seq<RelItem> {
    remove_key_upto(items, k, items.len() as int)
}

/// The predicate of keys other than `k`.
pub open spec fn other_key(k: Seq<char>) -> spec_fn(RelItem) -> bool {
    |it: RelItem| it.0 != k
}

/// The removal is a filter: every item whose key differs survives, in its
/// original relative order. Together with the contract of `promote` this is
/// the newest-first invariant of promotion: the new version's entry stands
/// first, and all previously-present entries keep their mutual order.
pub proof fn lemma_remove_key_is_filter(items: Seq<RelItem>, k: Seq<char>)
    ensures
        spec_remove_key(items, k) == items.filter(other_key(k)),
{
    lemma_remove_key_upto_filter(items, k, items.len() as int);
    assert(items.subrange(0, items.len() as int) =~= items);
}

proof fn lemma_remove_key_upto_filter(items: Seq<RelItem>, k: Seq<char>, n: int)
    requires
        0 <= n <= items.len(),
    ensures
        remove_key_upto(items, k, n) == items.subrange(0, n).filter(other_key(k)),
    decreases n,
{
    reveal_with_fuel(Seq::<RelItem>::filter, 2);
    let p = items.subrange(0, n);
    if n == 0 {
        assert(remove_key_upto(items, k, 0) =~= p.filter(other_key(k)));
    } else {
        lemma_remove_key_upto_filter(items, k, n - 1);
        assert(p.drop_last() =~= items.subrange(0, n - 1));
        assert(p.last() == items[n - 1]);
        assert(other_key(k)(p.last()) == (items[n - 1].0 != k));
        assert(p.filter(other_key(k)) == (if other_key(k)(p.last()) {
            p.drop_last().filter(other_key(k)).push(p.last())
        } else {
            p.drop_last().filter(other_key(k))
        }));
    }
}

/// When the key is absent, the removal keeps everything: together with the
/// contract of `promote`, promoting a version that has no entry yet makes
/// the release sequence exactly the new entry followed by the old sequence,
/// unchanged.
pub proof fn lemma_remove_key_absent(items: Seq<RelItem>, k: Seq<char>)
    requires
        !spec_has_key(items, k),
    ensures
        spec_remove_key(items, k) == items,
{
    lemma_remove_key_upto_absent(items, k, items.len() as int);
    assert(items.subrange(0, items.len() as int) =~= items);
}

proof fn lemma_remove_key_upto_absent(items: Seq<RelItem>, k: Seq<char>, n: int)
    requires
        0 <= n <= items.len(),
        !spec_has_key(items, k),
    ensures
        remove_key_upto(items, k, n) == items.subrange(0, n),
    decreases n,
{
    if n > 0 {
        lemma_remove_key_upto_absent(items, k, n - 1);
        assert(items[n - 1].0 != k);
        assert(items.subrange(0, n) =~= items.subrange(0, n - 1).push(items[n - 1]));
    }
}

/// Every item kept by the removal stands somewhere among the first `n`
/// items.
proof fn lemma_remove_key_upto_origin(items: Seq<RelItem>, k: Seq<char>, n: int)
    requires
        0 <= n <= items.len(),
    ensures
        forall|x: int|
            0 <= x < remove_key_upto(items, k, n).len() ==> exists|j: int|
                0 <= j < n && #[trigger] remove_key_upto(items, k, n)[x] == items[j],
        forall|x: int|
            0 <= x < remove_key_upto(items, k, n).len() ==> #[trigger] remove_key_upto(
                items,
                k,
                n,
            )[x].0 != k,
    decreases n,
{
    if n > 0 {
        lemma_remove_key_upto_origin(items, k, n - 1);
        let prev = remove_key_upto(items, k, n - 1);
        let cur = remove_key_upto(items, k, n);
        assert forall|x: int| 0 <= x < cur.len() implies exists|j: int|
            0 <= j < n && #[trigger] cur[x] == items[j] by {
            if x < prev.len() {
                assert(cur[x] == prev[x]);
                let w = choose|j: int| 0 <= j < n - 1 && prev[x] == items[j];
                assert(0 <= w < n && cur[x] == items[w]);
            } else {
                assert(cur[x] == items[n - 1]);
            }
        }
    }
}

/// The lines recorded for a set of updated dependencies: the dependency
/// names, sorted and with repeats dropped, each as a bullet naming the new
/// version.
pub open spec fn spec_insert_sorted(s: Seq<Seq<char>>, x: Seq<char>) -> Seq<Seq<char>>
    decreases s.len(),
{
    if s.len() == 0 {
        seq![x]
    } else if x == s[0] {
        s
    } else if spec_str_lt(x, s[0]) {
        seq![x] + s
    } else {
        seq![s[0]] + spec_insert_sorted(s.drop_first(), x)
    }
}

/// The dependency names, sorted without repeats, after the first `n`.
pub open spec fn sorted_unique_upto(deps: Seq<Seq<char>>, n: int) -> Seq<Seq<char>>
    decreases n,
{
    if n <= 0 {
        Seq::empty()
    } else {
        spec_insert_sorted(sorted_unique_upto(deps, n - 1), deps[n - 1])
    }
}

/// The bullet line recorded for one updated dependency.
pub open spec fn spec_dep_line(dep: Seq<char>, v: Version) -> Seq<char> {
    "- Updated `"@ + dep + "` to `"@ + spec_version_string(v) + "`."@
}

/// The change lines recorded for a set of updated dependencies.
pub open spec fn spec_dependency_lines(deps: Seq<Seq<char>>, v: Version) -> Seq<Seq<char>> {
    sorted_unique_upto(deps, deps.len() as int).map_values(|d: Seq<char>| spec_dep_line(d, v))
}

/// Inserts a string into a sorted vector, keeping it sorted and dropping a
/// repeat.
pub(crate) fn insert_sorted(v: Vec<String>, x: String) -> (r: Vec<String>)
    ensures
        r@.map_values(|s: String| s@) == spec_insert_sorted(v@.map_values(|s: String| s@), x@),
{
    let ghost views = v@.map_values(|s: String| s@);
    let mut out: Vec<String> = Vec::new();
    let mut i: usize = 0;
    while i < v.len()
        invariant
            i <= v@.len(),
            views == v@.map_values(|s: String| s@),
            out@.map_values(|s: String| s@) == views.subrange(0, i as int),
            forall|j: int| 0 <= j < i ==> views[j] != x@ && !spec_str_lt(x@, #[trigger] views[j]),
        decreases v@.len() - i,
    {
        let ghost old_map = out@.map_values(|s: String| s@);
        if str_eq(x.as_str(), v[i].as_str()) {
            let mut rest: usize = i;
            while rest < v.len()
                invariant
                    i <= rest <= v@.len(),
                    views == v@.map_values(|s: String| s@),
                    out@.map_values(|s: String| s@) == views.subrange(0, rest as int),
                decreases v@.len() - rest,
            {
                let ghost om = out@.map_values(|s: String| s@);
                out.push(v[rest].clone());
                rest = rest + 1;
                proof {
                    assert(out@.map_values(|s: String| s@) =~= om.push(views[rest as int - 1]));
                    assert(out@.map_values(|s: String| s@) =~= views.subrange(0, rest as int));
                }
            }
            proof {
                assert(views.subrange(0, views.len() as int) =~= views);
                lemma_insert_sorted_found(views, x@, i as int);
            }
            return out;
        }
        if str_lt(x.as_str(), v[i].as_str()) {
            out.push(x.clone());
            let mut rest: usize = i;
            while rest < v.len()
                invariant
                    i <= rest <= v@.len(),
                    views == v@.map_values(|s: String| s@),
                    out@.map_values(|s: String| s@) == views.subrange(0, i as int) + seq![x@]
                        + views.subrange(i as int, rest as int),
                decreases v@.len() - rest,
            {
                let ghost om = out@.map_values(|s: String| s@);
                out.push(v[rest].clone());
                rest = rest + 1;
                proof {
                    assert(out@.map_values(|s: String| s@) =~= om.push(views[rest as int - 1]));
                    assert(out@.map_values(|s: String| s@) =~= views.subrange(0, i as int)
                        + seq![x@] + views.subrange(i as int, rest as int));
                }
            }
            proof {
                assert(out@.map_values(|s: String| s@) =~= old_map.push(x@) + views.subrange(
                    i as int,
                    i as int,
                ) + views.subrange(i as int, views.len() as int));
                lemma_insert_sorted_before(views, x@, i as int);
                assert(out@.map_values(|s: String| s@) =~= views.subrange(0, i as int) + seq![x@]
                    + views.subrange(i as int, views.len() as int));
            }
            return out;
        }
        out.push(v[i].clone());
        i = i + 1;
        proof {
            assert(out@.map_values(|s: String| s@) =~= old_map.push(views[i as int - 1]));
            assert(out@.map_values(|s: String| s@) =~= views.subrange(0, i as int));
        }
    }
    let ghost old_map = out@.map_values(|s: String| s@);
    out.push(x);
    proof {
        assert(out@.map_values(|s: String| s@) =~= old_map.push(x@));
        assert(views.subrange(0, views.len() as int) =~= views);
        lemma_insert_sorted_after(views, x@);
        assert(out@.map_values(|s: String| s@) =~= views + seq![x@]);
    }
    out
}

/// When `x` equals element `i` and is neither equal to nor before any
/// earlier element, the sorted insert leaves the sequence unchanged.
proof fn lemma_insert_sorted_found(views: Seq<Seq<char>>, x: Seq<char>, i: int)
    requires
        0 <= i < views.len(),
        views[i] == x,
        forall|j: int| 0 <= j < i ==> views[j] != x && !spec_str_lt(x, #[trigger] views[j]),
    ensures
        spec_insert_sorted(views, x) == views,
    decreases i,
{
    if i == 0 {
    } else {
        let t = views.drop_first();
        assert(forall|j: int| 0 <= j < i - 1 ==> #[trigger] t[j] == views[j + 1]);
        assert(t[i - 1] == views[i]);
        lemma_insert_sorted_found(t, x, i - 1);
        assert(spec_insert_sorted(views, x) =~= seq![views[0]] + spec_insert_sorted(t, x));
        assert(seq![views[0]] + t =~= views);
    }
}

/// When `x` is before element `i` and neither equal to nor before any
/// earlier element, the sorted insert places `x` at position `i`.
proof fn lemma_insert_sorted_before(views: Seq<Seq<char>>, x: Seq<char>, i: int)
    requires
        0 <= i < views.len(),
        spec_str_lt(x, views[i]),
        views[i] != x,
        forall|j: int| 0 <= j < i ==> views[j] != x && !spec_str_lt(x, #[trigger] views[j]),
    ensures
        spec_insert_sorted(views, x) == views.subrange(0, i) + seq![x] + views.subrange(
            i,
            views.len() as int,
        ),
    decreases i,
{
    if i == 0 {
        assert(spec_insert_sorted(views, x) == seq![x] + views);
        assert(views.subrange(0, 0int) + seq![x] + views.subrange(0int, views.len() as int) =~= seq![x]
            + views);
    } else {
        let t = views.drop_first();
        assert(forall|j: int| 0 <= j < i - 1 ==> #[trigger] t[j] == views[j + 1]);
        assert(t[i - 1] == views[i]);
        lemma_insert_sorted_before(t, x, i - 1);
        assert(spec_insert_sorted(views, x) == seq![views[0]] + spec_insert_sorted(t, x));
        assert(seq![views[0]] + (t.subrange(0, i - 1) + seq![x] + t.subrange(
            i - 1,
            t.len() as int,
        )) =~= views.subrange(0, i) + seq![x] + views.subrange(i, views.len() as int));
    }
}

/// When `x` is neither equal to nor before any element, the sorted insert
/// appends it.
proof fn lemma_insert_sorted_after(views: Seq<Seq<char>>, x: Seq<char>)
    requires
        forall|j: int|
            0 <= j < views.len() ==> views[j] != x && !spec_str_lt(x, #[trigger] views[j]),
    ensures
        spec_insert_sorted(views, x) == views + seq![x],
    decreases views.len(),
{
    if views.len() == 0 {
        assert(spec_insert_sorted(views, x) =~= views + seq![x]);
    } else {
        let t = views.drop_first();
        assert(forall|j: int| 0 <= j < t.len() ==> #[trigger] t[j] == views[j + 1]);
        lemma_insert_sorted_after(t, x);
        assert(spec_insert_sorted(views, x) == seq![views[0]] + (t + seq![x]));
        assert(seq![views[0]] + (t + seq![x]) =~= views + seq![x]);
    }
}

/// Appends clones of `src[from..to]` to `dst`.
fn extend_clone(dst: &mut Vec<String>, src: &Vec<String>, from: usize, to: usize)
    requires
        from <= to <= src@.len(),
    ensures
        final(dst)@.map_values(|s: String| s@) == old(dst)@.map_values(|s: String| s@)
            + src@.map_values(|s: String| s@).subrange(from as int, to as int),
{
    let ghost base = dst@.map_values(|s: String| s@);
    let ghost views = src@.map_values(|s: String| s@);
    let mut i: usize = from;
    while i < to
        invariant
            from <= i <= to <= src@.len(),
            views == src@.map_values(|s: String| s@),
            dst@.map_values(|s: String| s@) == base + views.subrange(from as int, i as int),
        decreases to - i,
    {
        let ghost om = dst@.map_values(|s: String| s@);
        dst.push(src[i].clone());
        i = i + 1;
        proof {
            assert(dst@.map_values(|s: String| s@) =~= om.push(views[i as int - 1]));
            assert(dst@.map_values(|s: String| s@) =~= base + views.subrange(
                from as int,
                i as int,
            ));
        }
    }
}

/// Finds the first line that reads exactly `### Changed`, or the line count.
fn find_changed(ls: &Vec<String>) -> (r: usize)
    ensures
        r as int == spec_changed_index(ls@.map_values(|s: String| s@), 0),
        r <= ls@.len(),
{
    let ghost views = ls@.map_values(|s: String| s@);
    let mut i: usize = 0;
    while i < ls.len()
        invariant
            i <= ls@.len(),
            views == ls@.map_values(|s: String| s@),
            spec_changed_index(views, 0) == spec_changed_index(views, i as int),
        decreases ls@.len() - i,
    {
        if str_eq(ls[i].as_str(), "### Changed") {
            return i;
        }
        i = i + 1;
    }
    i
}

/// Whether a line opens a subsection.
fn line_is_subheading_exec(l: &str) -> (r: bool)
    ensures
        r == line_is_subheading(l@),
{
    l.unicode_len() >= 3 && l.get_char(0) == '#' && l.get_char(1) == '#' && l.get_char(2) == '#'
}

/// Finds the first subsection heading at or after `from`, or the line count.
fn section_end(ls: &Vec<String>, from: usize) -> (r: usize)
    requires
        from <= ls@.len(),
    ensures
        r as int == spec_section_end(ls@.map_values(|s: String| s@), from as int),
        from <= r <= ls@.len(),
{
    let ghost views = ls@.map_values(|s: String| s@);
    let mut i: usize = from;
    while i < ls.len()
        invariant
            from <= i <= ls@.len(),
            views == ls@.map_values(|s: String| s@),
            spec_section_end(views, from as int) == spec_section_end(views, i as int),
        decreases ls@.len() - i,
    {
        if line_is_subheading_exec(ls[i].as_str()) {
            return i;
        }
        i = i + 1;
    }
    i
}

/// The last non-blank line in `[lo, hi)`, when one exists.
fn last_nonempty(ls: &Vec<String>, lo: usize, hi: usize) -> (r: Option<usize>)
    requires
        hi <= ls@.len(),
    ensures
        match r {
            Some(j) => spec_last_nonempty(ls@.map_values(|s: String| s@), lo as int, hi as int)
                == Some(j as int) && lo <= j < hi,
            None => spec_last_nonempty(ls@.map_values(|s: String| s@), lo as int, hi as int)
                is None,
        },
{
    let ghost views = ls@.map_values(|s: String| s@);
    let mut j: usize = hi;
    while j > lo
        invariant
            j <= hi <= ls@.len(),
            views == ls@.map_values(|s: String| s@),
            spec_last_nonempty(views, lo as int, hi as int) == spec_last_nonempty(
                views,
                lo as int,
                j as int,
            ),
        decreases j,
    {
        let t = trim_str(ls[j - 1].as_str());
        if !t.as_str().is_empty() {
            return Some(j - 1);
        }
        j = j - 1;
    }
    None
}

/// Merges the extra change lines into the unreleased body.
pub fn merged_body(unreleased: &Option<String>, extras: &Vec<String>) -> (r: String)
    ensures
        r@ == spec_merged_body(view_opt(*unreleased), extras@.map_values(|s: String| s@)),
{
    let ghost ex = extras@.map_values(|s: String| s@);
    let content: Option<&String> = match unreleased {
        Some(u) => if u.as_str().is_empty() {
            None
        } else {
            Some(u)
        },
        None => None,
    };
    if extras.len() == 0 {
        match content {
            Some(u) => u.clone(),
            None => "No changes.".to_owned(),
        }
    } else {
        match content {
            None => {
                let mut out: String = "### Changed\n\n".to_owned();
                out.append(join_lines(extras).as_str());
                out
            },
            Some(u) => {
                let ls = split_lines(u.as_str());
                let ghost lv = ls@.map_values(|s: String| s@);
                let ci = find_changed(&ls);
                if ci == ls.len() {
                    let mut out = u.clone();
                    out.append("\n\n### Changed\n\n");
                    out.append(join_lines(extras).as_str());
                    out
                } else {
                    let end = section_end(&ls, ci + 1);
                    let jopt = last_nonempty(&ls, ci, end);
                    proof {
                        if spec_last_nonempty(lv, ci as int, end as int) matches Some(j) {
                            lemma_last_nonempty_bounds(lv, ci as int, end as int);
                        }
                    }
                    let mut nl: Vec<String> = Vec::new();
                    match jopt {
                        Some(j) => {
                            extend_clone(&mut nl, &ls, 0, j + 1);
                            extend_clone(&mut nl, extras, 0, extras.len());
                            extend_clone(&mut nl, &ls, j + 1, ls.len());
                            proof {
                                assert(ex.subrange(0, ex.len() as int) =~= ex);
                                assert(nl@.map_values(|s: String| s@) =~= lv.subrange(
                                    0,
                                    j as int + 1,
                                ) + ex + lv.subrange(j as int + 1, lv.len() as int));
                            }
                        },
                        None => {
                            extend_clone(&mut nl, &ls, 0, ci + 1);
                            nl.push(String::new());
                            extend_clone(&mut nl, extras, 0, extras.len());
                            extend_clone(&mut nl, &ls, ci + 1, ls.len());
                            proof {
                                assert(ex.subrange(0, ex.len() as int) =~= ex);
                                assert(nl@.map_values(|s: String| s@) =~= lv.subrange(
                                    0,
                                    ci as int + 1,
                                ) + seq![Seq::<char>::empty()] + ex + lv.subrange(
                                    ci as int + 1,
                                    lv.len() as int,
                                ));
                            }
                        },
                    }
                    join_lines(&nl)
                }
            },
        }
    }
}

/// The position a last non-blank line names is in range.
proof fn lemma_last_nonempty_bounds(ls: Seq<Seq<char>>, lo: int, hi: int)
    requires
        spec_last_nonempty(ls, lo, hi) is Some,
    ensures
        lo <= spec_last_nonempty(ls, lo, hi)->0 < hi <= ls.len(),
    decreases hi - lo,
{
    if !(hi <= lo || hi > ls.len() || lo < 0) && !(spec_trim(ls[hi - 1]).len() > 0) {
        lemma_last_nonempty_bounds(ls, lo, hi - 1);
    }
}

/// The entry a promotion puts at the head of the release list.
pub open spec fn promoted_item(doc: Changelog, v: Version, d: Date, extras: Seq<Seq<char>>) -> RelItem {
    (
        spec_version_string(v),
        (v.major, v.minor, v.patch),
        (d.year, d.month, d.day),
        spec_merged_body(doc_unreleased(doc), extras),
    )
}

/// Promotes the unreleased content into a new release of `target_version` at
/// `date`: the new entry, its body the unreleased content merged with the
/// extra change lines, stands first; every other release keeps its place; an
/// entry already under the target version gives way; the unreleased section
/// is cleared.
pub fn promote(
    doc: &Changelog,
    target_version: &Version,
    date: &Date,
    extra_change_lines: &Vec<String>,
) -> (r: Changelog)
    requires
        wf_changelog(*doc),
        spec_valid_date(date.year as int, date.month as int, date.day as int),
        date.year <= 9999,
        date.month <= 99,
        date.day <= 99,
    ensures
        doc_unreleased(r) is None,
        doc_releases(r) == seq![
            promoted_item(
                *doc,
                *target_version,
                *date,
                extra_change_lines@.map_values(|s: String| s@),
            ),
        ] + spec_remove_key(doc_releases(*doc), spec_version_string(*target_version)),
        wf_changelog(r),
{
    let ghost items = doc_releases(*doc);
    let ghost k = spec_version_string(*target_version);
    let body = merged_body(&doc.unreleased, extra_change_lines);
    let key = target_version.to_text();
    let entry = ReleaseEntry { version: *target_version, date: *date, body };
    let ghost item0 = entry_repr(key@, entry);
    let mut releases = new_release_map();
    release_map_insert(&mut releases, key.clone(), entry);
    proof {
        assert(release_items(releases) =~= seq![item0]);
        assert(item0 == promoted_item(
            *doc,
            *target_version,
            *date,
            extra_change_lines@.map_values(|s: String| s@),
        ));
        assert(remove_key_upto(items, k, 0) =~= Seq::<RelItem>::empty());
        assert(release_items(releases) =~= seq![item0] + remove_key_upto(items, k, 0));
    }
    let mut entries = release_map_values(&doc.releases);
    let ghost all = entries@;
    let total: usize = entries.len();
    let mut i: usize = 0;
    while entries.len() > 0
        invariant
            total as int == all.len(),
            i <= total,
            i as int + entries@.len() == all.len(),
            all.len() == items.len(),
            entries@ == all.subrange(i as int, all.len() as int),
            forall|j: int| 0 <= j < items.len() ==> item_matches(#[trigger] items[j], all[j]),
            wf_changelog(*doc),
            items == doc_releases(*doc),
            k == spec_version_string(*target_version),
            key@ == k,
            item0.0 == k,
            wf_item(item0),
            release_items(releases) == seq![item0] + remove_key_upto(items, k, i as int),
        decreases entries@.len(),
    {
        let e = entries.remove(0);
        proof {
            assert(all[i as int] == e);
            assert(entries@ =~= all.subrange(i as int + 1, all.len() as int));
            assert(item_matches(items[i as int], e));
            assert(wf_item(items[i as int]));
        }
        let ekey = e.version.to_text();
        proof {
            assert(ekey@ == items[i as int].0);
        }
        if !str_eq(ekey.as_str(), key.as_str()) {
            let ghost cur = release_items(releases);
            proof {
                lemma_remove_key_upto_origin(items, k, i as int);
                assert(!spec_has_key(cur, ekey@)) by {
                    if spec_has_key(cur, ekey@) {
                        let w = choose|x: int| 0 <= x < cur.len() && cur[x].0 == ekey@;
                        if w == 0 {
                            assert(cur[0].0 == k);
                        } else {
                            let rem = remove_key_upto(items, k, i as int);
                            assert(cur[w] == rem[w - 1]);
                            let j = choose|j: int| 0 <= j < i && rem[w - 1] == items[j];
                            assert(items[j].0 == items[i as int].0);
                        }
                    }
                }
                assert(entry_repr(ekey@, e) == items[i as int]);
            }
            release_map_insert(&mut releases, ekey, e);
            proof {
                assert(release_items(releases) =~= cur.push(items[i as int]));
                assert(remove_key_upto(items, k, i as int + 1) =~= remove_key_upto(
                    items,
                    k,
                    i as int,
                ).push(items[i as int]));
                assert(release_items(releases) =~= seq![item0] + remove_key_upto(
                    items,
                    k,
                    i as int + 1,
                ));
            }
        } else {
            proof {
                assert(items[i as int].0 == k);
                assert(remove_key_upto(items, k, i as int + 1) =~= remove_key_upto(
                    items,
                    k,
                    i as int,
                ));
            }
        }
        i = i + 1;
    }
    proof {
        assert(i as int == items.len());
        let out = seq![item0] + spec_remove_key(items, k);
        assert(release_items(releases) =~= out);
        lemma_remove_key_upto_origin(items, k, items.len() as int);
        lemma_remove_key_distinct(items, k, items.len() as int);
        let rem = spec_remove_key(items, k);
        assert(spec_distinct_keys(out)) by {
            assert forall|a: int, b: int| 0 <= a < b < out.len() implies #[trigger] out[a].0
                != #[trigger] out[b].0 by {
                if a == 0 {
                    assert(out[b] == rem[b - 1]);
                } else {
                    assert(out[a] == rem[a - 1] && out[b] == rem[b - 1]);
                }
            }
        }
        assert forall|x: int| 0 <= x < out.len() implies wf_item(#[trigger] out[x]) by {
            if x > 0 {
                assert(out[x] == rem[x - 1]);
                let j = choose|j: int| 0 <= j < items.len() && rem[x - 1] == items[j];
                assert(wf_item(items[j]));
            }
        }
    }
    Changelog { unreleased: None, releases }
}

/// Removal keeps the remaining keys pairwise distinct.
proof fn lemma_remove_key_distinct(items: Seq<RelItem>, k: Seq<char>, n: int)
    requires
        0 <= n <= items.len(),
        spec_distinct_keys(items),
    ensures
        spec_distinct_keys(remove_key_upto(items, k, n)),
    decreases n,
{
    if n > 0 {
        lemma_remove_key_distinct(items, k, n - 1);
        lemma_remove_key_upto_origin(items, k, n - 1);
        let prev = remove_key_upto(items, k, n - 1);
        let cur = remove_key_upto(items, k, n);
        if items[n - 1].0 != k {
            assert forall|a: int, b: int| 0 <= a < b < cur.len() implies #[trigger] cur[a].0
                != #[trigger] cur[b].0 by {
                if b < prev.len() {
                    assert(cur[a] == prev[a] && cur[b] == prev[b]);
                } else {
                    assert(cur[a] == prev[a] && cur[b] == items[n - 1]);
                    let j = choose|j: int| 0 <= j < n - 1 && prev[a] == items[j];
                    assert(items[j].0 != items[n - 1].0);
                }
            }
        }
    }
}

/// Promotes the unreleased content into a release of `next_version` at
/// `date`, recording one `Changed` bullet per updated dependency, the
/// dependencies sorted and without repeats.
pub fn promote_changelog_unreleased_to_version(
    changelog: &Changelog,
    next_version: &Version,
    date: &Date,
    updated_dependencies: &Vec<String>,
) -> (r: Changelog)
    requires
        wf_changelog(*changelog),
        spec_valid_date(date.year as int, date.month as int, date.day as int),
        date.year <= 9999,
        date.month <= 99,
        date.day <= 99,
    ensures
        doc_unreleased(r) is None,
        doc_releases(r) == seq![
            promoted_item(
                *changelog,
                *next_version,
                *date,
                spec_dependency_lines(
                    updated_dependencies@.map_values(|s: String| s@),
                    *next_version,
                ),
            ),
        ] + spec_remove_key(doc_releases(*changelog), spec_version_string(*next_version)),
        wf_changelog(r),
{
    let ghost deps = updated_dependencies@.map_values(|s: String| s@);
    let mut sorted: Vec<String> = Vec::new();
    let mut i: usize = 0;
    while i < updated_dependencies.len()
        invariant
            i <= updated_dependencies@.len(),
            deps == updated_dependencies@.map_values(|s: String| s@),
            sorted@.map_values(|s: String| s@) == sorted_unique_upto(deps, i as int),
        decreases updated_dependencies@.len() - i,
    {
        sorted = insert_sorted(sorted, updated_dependencies[i].clone());
        i = i + 1;
    }
    let ghost su = sorted_unique_upto(deps, deps.len() as int);
    let mut lines: Vec<String> = Vec::new();
    let mut j: usize = 0;
    while j < sorted.len()
        invariant
            j <= sorted@.len(),
            sorted@.map_values(|s: String| s@) == su,
            lines@.map_values(|s: String| s@) == su.subrange(0, j as int).map_values(
                |d: Seq<char>| spec_dep_line(d, *next_version),
            ),
        decreases sorted@.len() - j,
    {
        let ghost om = lines@.map_values(|s: String| s@);
        let mut line: String = "- Updated `".to_owned();
        line.append(sorted[j].as_str());
        line.append("` to `");
        line.append(next_version.to_text().as_str());
        line.append("`.");
        proof {
            assert(sorted@[j as int]@ == su[j as int]);
            assert(line@ =~= spec_dep_line(su[j as int], *next_version));
        }
        lines.push(line);
        j = j + 1;
        proof {
            assert(lines@.map_values(|s: String| s@) =~= om.push(
                spec_dep_line(su[j as int - 1], *next_version),
            ));
            assert(lines@.map_values(|s: String| s@) =~= su.subrange(0, j as int).map_values(
                |d: Seq<char>| spec_dep_line(d, *next_version),
            ));
        }
    }
    proof {
        assert(su.subrange(0, su.len() as int) =~= su);
        assert(lines@.map_values(|s: String| s@) == spec_dependency_lines(deps, *next_version));
    }
    promote(changelog, next_version, date, &lines)
}

} // verus!
