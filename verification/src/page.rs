//! One page of a message reference list: an insertion-ordered map from a
//! message id to the content id of the message, or to nothing once the
//! message was removed. The map is an `indexmap::IndexMap`; what the logic
//! reads of it is the sequence of its entries in order.
use indexmap::IndexMap;
use vstd::prelude::*;

verus! {

#[verifier::external_type_specification]
#[verifier::external_body]
#[verifier::reject_recursive_types(K)]
#[verifier::reject_recursive_types(V)]
#[verifier::reject_recursive_types(S)]
pub struct ExIndexMap<K, V, S>(IndexMap<K, V, S>);

/// The entries of a page, in the map's order, each value by its view.
pub uninterp spec fn page_entries(m: IndexMap<u128, Option<String>>) -> Seq<(u128, Option<Seq<char>>)>;

/// The view of an optional content id.
pub open spec fn opt_view(o: Option<String>) -> Option<Seq<char>> {
    match o {
        Some(s) => Some(s@),
        None => None,
    }
}

/// First index at or after `i` whose key is `id`, or -1.
pub open spec fn key_index_from(p: Seq<(u128, Option<Seq<char>>)>, id: u128, i: int) -> int
    decreases p.len() - i,
{
    if i < 0 || i >= p.len() {
        -1
    } else if p[i].0 == id {
        i
    } else {
        key_index_from(p, id, i + 1)
    }
}

/// First index whose key is `id`, or -1.
pub open spec fn key_index(p: Seq<(u128, Option<Seq<char>>)>, id: u128) -> int {
    key_index_from(p, id, 0)
}

/// Whether some entry has the key `id`.
pub open spec fn has_key(p: Seq<(u128, Option<Seq<char>>)>, id: u128) -> bool {
    exists|i: int| 0 <= i < p.len() && #[trigger] p[i].0 == id
}

/// What `IndexMap::insert` does to the entries: an existing key keeps its
/// place and takes the new value, a new key goes last.
pub open spec fn insert_entry(
    p: Seq<(u128, Option<Seq<char>>)>,
    id: u128,
    v: Option<Seq<char>>,
) -> Seq<(u128, Option<Seq<char>>)> {
    if key_index(p, id) >= 0 {
        p.update(key_index(p, id), (id, v))
    } else {
        p.push((id, v))
    }
}

/// No key occurs twice.
pub open spec fn keys_distinct(p: Seq<(u128, Option<Seq<char>>)>) -> bool {
    forall|i: int, j: int| 0 <= i < p.len() && 0 <= j < p.len() && i != j ==> #[trigger] p[i].0 != #[trigger] p[j].0
}

pub proof fn lemma_key_index_from(p: Seq<(u128, Option<Seq<char>>)>, id: u128, i: int)
    requires
        0 <= i,
    ensures
        key_index_from(p, id, i) == -1 || (i <= key_index_from(p, id, i) < p.len()),
        key_index_from(p, id, i) >= 0 ==> p[key_index_from(p, id, i)].0 == id,
        key_index_from(p, id, i) >= 0 ==> forall|j: int| i <= j < key_index_from(p, id, i) ==> p[j].0 != id,
        key_index_from(p, id, i) == -1 ==> forall|j: int| i <= j < p.len() ==> p[j].0 != id,
    decreases p.len() - i,
{
    if i < p.len() && p[i].0 != id {
        lemma_key_index_from(p, id, i + 1);
    }
}

/// `key_index` finds the first entry with the key, and -1 exactly when there is none.
pub proof fn lemma_key_index(p: Seq<(u128, Option<Seq<char>>)>, id: u128)
    ensures
        key_index(p, id) == -1 || (0 <= key_index(p, id) < p.len()),
        key_index(p, id) >= 0 ==> p[key_index(p, id)].0 == id,
        key_index(p, id) >= 0 ==> forall|j: int| 0 <= j < key_index(p, id) ==> p[j].0 != id,
        key_index(p, id) >= 0 <==> has_key(p, id),
{
    lemma_key_index_from(p, id, 0);
    if key_index(p, id) >= 0 {
        assert(p[key_index(p, id)].0 == id);
    }
}

/// A new, empty page.
#[verifier::external_body]
pub(crate) fn new_page() -> (m: IndexMap<u128, Option<String>>)
    ensures
        page_entries(m) == Seq::<(u128, Option<Seq<char>>)>::empty(),
{
    IndexMap::new()
}

/// The number of entries of a page (`IndexMap::len`).
#[verifier::external_body]
pub(crate) fn page_len(m: &IndexMap<u128, Option<String>>) -> (n: usize)
    ensures
        n == page_entries(*m).len(),
{
    m.len()
}

/// The entry at position `i` (`IndexMap::get_index`), copied out.
#[verifier::external_body]
pub(crate) fn page_entry(m: &IndexMap<u128, Option<String>>, i: usize) -> (e: (u128, Option<String>))
    requires
        i < page_entries(*m).len(),
    ensures
        e.0 == page_entries(*m)[i as int].0,
        opt_view(e.1) == page_entries(*m)[i as int].1,
{
    let (k, v) = m.get_index(i).unwrap();
    (*k, v.clone())
}

/// Whether the page has the key (`IndexMap::contains_key`).
#[verifier::external_body]
pub(crate) fn page_contains_key(m: &IndexMap<u128, Option<String>>, id: u128) -> (b: bool)
    ensures
        b == has_key(page_entries(*m), id),
{
    m.contains_key(&id)
}

/// Insert or replace (`IndexMap::insert`): an existing key keeps its place and
/// takes the new value; a new key goes last.
#[verifier::external_body]
pub(crate) fn page_insert(m: &mut IndexMap<u128, Option<String>>, id: u128, v: Option<String>)
    ensures
        page_entries(*final(m)) == insert_entry(page_entries(*old(m)), id, opt_view(v)),
{
    m.insert(id, v);
}

} // verus!
