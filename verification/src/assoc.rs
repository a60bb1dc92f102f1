//! Lookups in insertion-ordered lists: sets of identities (DID strings) and
//! maps keyed by an id or by a name, searched front to back.
use crate::codec::strings_view;
use vstd::prelude::*;

verus! {

/// Whether the list of DIDs holds `did`.
pub open spec fn has_did(list: Seq<String>, did: Seq<char>) -> bool {
    exists|i: int| 0 <= i < list.len() && #[trigger] list[i]@ == did
}

/// First position at or after `i` of the entry keyed `k`, or -1.
pub open spec fn id_index_from<V>(s: Seq<(u128, V)>, k: u128, i: int) -> int
    decreases s.len() - i,
{
    if i < 0 || i >= s.len() {
        -1
    } else if s[i].0 == k {
        i
    } else {
        id_index_from(s, k, i + 1)
    }
}

/// The value of the first entry keyed `k`.
pub open spec fn id_lookup<V>(s: Seq<(u128, V)>, k: u128) -> Option<V> {
    if id_index_from(s, k, 0) >= 0 {
        Some(s[id_index_from(s, k, 0)].1)
    } else {
        None
    }
}

/// First position at or after `i` of the entry named `k`, or -1.
pub open spec fn name_index_from<V>(s: Seq<(String, V)>, k: Seq<char>, i: int) -> int
    decreases s.len() - i,
{
    if i < 0 || i >= s.len() {
        -1
    } else if s[i].0@ == k {
        i
    } else {
        name_index_from(s, k, i + 1)
    }
}

/// The value of the first entry named `k`.
pub open spec fn name_lookup<V>(s: Seq<(String, V)>, k: Seq<char>) -> Option<V> {
    if name_index_from(s, k, 0) >= 0 {
        Some(s[name_index_from(s, k, 0)].1)
    } else {
        None
    }
}

/// A list of DIDs holds `did` exactly when its texts do.
pub proof fn lemma_has_did_view(list: Seq<String>, did: Seq<char>)
    ensures
        has_did(list, did) == strings_view(list).contains(did),
{
    if has_did(list, did) {
        let i = choose|i: int| 0 <= i < list.len() && #[trigger] list[i]@ == did;
        assert(strings_view(list)[i] == did);
    }
    if strings_view(list).contains(did) {
        let i = choose|i: int| 0 <= i < strings_view(list).len() && strings_view(list)[i] == did;
        assert(list[i]@ == did);
    }
}

/// Whether `did` is in `list`.
pub fn contains_did(list: &Vec<String>, did: &String) -> (b: bool)
    ensures
        b == has_did(list@, did@),
{
    let mut i: usize = 0;
    while i < list.len()
        invariant
            i <= list@.len(),
            forall|k: int| 0 <= k < i ==> list@[k]@ != did@,
        decreases list@.len() - i,
    {
        if list[i] == *did {
            return true;
        }
        i += 1;
    }
    false
}

/// Position of the first entry keyed `k`; the length when there is none.
pub fn find_id<V>(s: &Vec<(u128, V)>, k: u128) -> (i: usize)
    ensures
        i <= s@.len(),
        i < s@.len() ==> i as int == id_index_from(s@, k, 0),
        i == s@.len() ==> id_index_from(s@, k, 0) == -1,
{
    let mut i: usize = 0;
    while i < s.len()
        invariant
            i <= s@.len(),
            id_index_from(s@, k, 0) == id_index_from(s@, k, i as int),
        decreases s@.len() - i,
    {
        if s[i].0 == k {
            return i;
        }
        i += 1;
    }
    i
}

/// Position of the first entry named `k`; the length when there is none.
pub fn find_name<V>(s: &Vec<(String, V)>, k: &String) -> (i: usize)
    ensures
        i <= s@.len(),
        i < s@.len() ==> i as int == name_index_from(s@, k@, 0),
        i == s@.len() ==> name_index_from(s@, k@, 0) == -1,
{
    let mut i: usize = 0;
    while i < s.len()
        invariant
            i <= s@.len(),
            name_index_from(s@, k@, 0) == name_index_from(s@, k@, i as int),
        decreases s@.len() - i,
    {
        if s[i].0 == *k {
            return i;
        }
        i += 1;
    }
    i
}

/// Adds `did` at the end unless it is there already; tells whether it was added.
pub fn insert_did(list: &mut Vec<String>, did: String) -> (added: bool)
    ensures
        added == !has_did(old(list)@, did@),
        added ==> final(list)@ == old(list)@.push(did),
        !added ==> final(list)@ == old(list)@,
{
    if contains_did(list, &did) {
        false
    } else {
        list.push(did);
        true
    }
}

} // verus!
