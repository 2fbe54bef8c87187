//! The ordered collection of release entries: an insertion-ordered map from
//! canonical version strings to entries, held in `indexmap::IndexMap` behind
//! trusted wrappers whose contracts speak of the map's contents.

use vstd::prelude::*;
use crate::date::Date;
use crate::version::Version;

verus! {

/// One versioned, dated section of the changelog, with its body of change
/// notes (possibly empty).
#[derive(Debug, Clone, PartialEq, Eq)]
pub struct ReleaseEntry {
    pub version: Version,
    pub date: Date,
    pub body: String,
}

/// The plain shape of one map item: the key and the entry's version, date,
/// and body.
pub open spec fn entry_repr(key: Seq<char>, e: ReleaseEntry) -> (
    Seq<char>,
    (u64, u64, u64),
    (u32, u32, u32),
    Seq<char>,
) {
    (key, (e.version.major, e.version.minor, e.version.patch), (e.date.year, e.date.month, e.date.day), e.body@)
}

/// Whether a map item carries the fields of the given entry.
pub open spec fn item_matches(
    item: (Seq<char>, (u64, u64, u64), (u32, u32, u32), Seq<char>),
    e: ReleaseEntry,
) -> bool {
    &&& item.1 == (e.version.major, e.version.minor, e.version.patch)
    &&& item.2 == (e.date.year, e.date.month, e.date.day)
    &&& item.3 == e.body@
}

#[verifier::external_type_specification]
#[verifier::external_body]
#[verifier::reject_recursive_types(K)]
#[verifier::reject_recursive_types(V)]
#[verifier::reject_recursive_types(S)]
pub struct ExIndexMap<K, V, S>(indexmap::IndexMap<K, V, S>);

/// The items of a release map, in the map's order: for each entry its key,
/// version, date, and body.
pub uninterp spec fn release_items(m: indexmap::IndexMap<String, ReleaseEntry>) -> Seq<
    (Seq<char>, (u64, u64, u64), (u32, u32, u32), Seq<char>),
>;

/// Whether some item of `items` has the key `k`.
pub open spec fn spec_has_key(
    items: Seq<(Seq<char>, (u64, u64, u64), (u32, u32, u32), Seq<char>)>,
    k: Seq<char>,
) -> bool {
    exists|i: int| 0 <= i < items.len() && #[trigger] items[i].0 == k
}

/// The first position of the key `k` among `items`.
pub open spec fn spec_key_index(
    items: Seq<(Seq<char>, (u64, u64, u64), (u32, u32, u32), Seq<char>)>,
    k: Seq<char>,
) -> int
    decreases items.len(),
{
    if items.len() == 0 {
        0
    } else if items[0].0 == k {
        0
    } else {
        1 + spec_key_index(items.drop_first(), k)
    }
}

/// Inserting under a key that is present replaces that item in place;
/// inserting under a fresh key appends the item.
pub open spec fn spec_insert(
    items: Seq<(Seq<char>, (u64, u64, u64), (u32, u32, u32), Seq<char>)>,
    item: (Seq<char>, (u64, u64, u64), (u32, u32, u32), Seq<char>),
) -> Seq<(Seq<char>, (u64, u64, u64), (u32, u32, u32), Seq<char>)> {
    if spec_has_key(items, item.0) {
        items.update(spec_key_index(items, item.0), item)
    } else {
        items.push(item)
    }
}

/// The keys of `items` are pairwise distinct.
pub open spec fn spec_distinct_keys(
    items: Seq<(Seq<char>, (u64, u64, u64), (u32, u32, u32), Seq<char>)>,
) -> bool {
    forall|i: int, j: int|
        0 <= i < j < items.len() ==> #[trigger] items[i].0 != #[trigger] items[j].0
}

/// Relies on `indexmap::IndexMap::new`: the new map is empty.
#[verifier::external_body]
pub(crate) fn new_release_map() -> (r: indexmap::IndexMap<String, ReleaseEntry>)
    ensures
        release_items(r) == Seq::<(Seq<char>, (u64, u64, u64), (u32, u32, u32), Seq<char>)>::empty(),
{
    indexmap::IndexMap::new()
}

/// Relies on `indexmap::IndexMap::insert`: an existing key keeps its
/// position and has its value replaced; a fresh key is appended last.
#[verifier::external_body]
pub(crate) fn release_map_insert(
    m: &mut indexmap::IndexMap<String, ReleaseEntry>,
    key: String,
    entry: ReleaseEntry,
)
    ensures
        release_items(*final(m)) == spec_insert(release_items(*old(m)), entry_repr(key@, entry)),
{
    m.insert(key, entry);
}

/// Relies on `indexmap::IndexMap::get`: returns the value stored under an
/// equal key, and nothing when the key is absent.
#[verifier::external_body]
pub(crate) fn release_map_get<'a>(
    m: &'a indexmap::IndexMap<String, ReleaseEntry>,
    key: &str,
) -> (r: Option<&'a ReleaseEntry>)
    ensures
        match r {
            Some(e) => spec_has_key(release_items(*m), key@) && item_matches(
                release_items(*m)[spec_key_index(release_items(*m), key@)],
                *e,
            ),
            None => !spec_has_key(release_items(*m), key@),
        },
{
    m.get(key)
}

/// Relies on `indexmap::IndexMap::values`: the values in the map's order,
/// cloned out.
#[verifier::external_body]
pub(crate) fn release_map_values(m: &indexmap::IndexMap<String, ReleaseEntry>) -> (r: Vec<ReleaseEntry>)
    ensures
        r@.len() == release_items(*m).len(),
        forall|i: int|
            0 <= i < r@.len() ==> item_matches(#[trigger] release_items(*m)[i], r@[i]),
{
    m.values().cloned().collect()
}

/// An insert never disturbs the keys other than the inserted one, and keeps
/// key distinctness.
pub proof fn lemma_insert_distinct(
    items: Seq<(Seq<char>, (u64, u64, u64), (u32, u32, u32), Seq<char>)>,
    item: (Seq<char>, (u64, u64, u64), (u32, u32, u32), Seq<char>),
)
    requires
        spec_distinct_keys(items),
    ensures
        spec_distinct_keys(spec_insert(items, item)),
    decreases items.len(),
{
    if spec_has_key(items, item.0) {
        lemma_key_index(items, item.0);
    }
}

/// When the key is present, its first position is in range and carries it;
/// with distinct keys it is the only position that does.
pub proof fn lemma_key_index(
    items: Seq<(Seq<char>, (u64, u64, u64), (u32, u32, u32), Seq<char>)>,
    k: Seq<char>,
)
    requires
        spec_has_key(items, k),
    ensures
        0 <= spec_key_index(items, k) < items.len(),
        items[spec_key_index(items, k)].0 == k,
        forall|j: int| 0 <= j < spec_key_index(items, k) ==> #[trigger] items[j].0 != k,
    decreases items.len(),
{
    if items.len() > 0 && items[0].0 != k {
        let t = items.drop_first();
        assert(spec_has_key(t, k)) by {
            let w = choose|i: int| 0 <= i < items.len() && items[i].0 == k;
            assert(t[w - 1].0 == k);
        }
        lemma_key_index(t, k);
        assert forall|j: int| 0 <= j < spec_key_index(items, k) implies #[trigger] items[j].0
            != k by {
            if j >= 1 {
                assert(items[j] == t[j - 1]);
            }
        }
    }
}

} // verus!
