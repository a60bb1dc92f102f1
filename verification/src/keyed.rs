//! Maps keyed by text, held as lists of entries in which no key occurs twice.
use vstd::prelude::*;

verus! {

/// No key occurs twice.
pub open spec fn keys_distinct<V>(s: Seq<(Seq<char>, V)>) -> bool {
    forall|i: int, j: int| 0 <= i < j < s.len() ==> s[i].0 != s[j].0
}

/// Some entry of `s` has the key `k`.
pub open spec fn has_key<V>(s: Seq<(Seq<char>, V)>, k: Seq<char>) -> bool {
    exists|i: int| 0 <= i < s.len() && #[trigger] s[i].0 == k
}

/// The entries of `s` as a map.
pub open spec fn keyed_map<V>(s: Seq<(Seq<char>, V)>) -> Map<Seq<char>, V> {
    Map::new(
        |k: Seq<char>| has_key(s, k),
        |k: Seq<char>| s[choose|i: int| 0 <= i < s.len() && #[trigger] s[i].0 == k].1,
    )
}

pub proof fn lemma_map_at<V>(s: Seq<(Seq<char>, V)>, j: int)
    requires
        keys_distinct(s),
        0 <= j < s.len(),
    ensures
        keyed_map(s).contains_key(s[j].0),
        keyed_map(s)[s[j].0] == s[j].1,
{
    let k = s[j].0;
    assert(has_key(s, k));
    let i = choose|i: int| 0 <= i < s.len() && #[trigger] s[i].0 == k;
    assert(i == j);
}

pub proof fn lemma_map_absent<V>(s: Seq<(Seq<char>, V)>, k: Seq<char>)
    requires
        forall|i: int| 0 <= i < s.len() ==> s[i].0 != k,
    ensures
        !keyed_map(s).contains_key(k),
{
}

pub proof fn lemma_map_update<V>(s: Seq<(Seq<char>, V)>, j: int, d: (Seq<char>, V))
    requires
        keys_distinct(s),
        0 <= j < s.len(),
        s[j].0 == d.0,
    ensures
        keys_distinct(s.update(j, d)),
        keyed_map(s.update(j, d)) =~= keyed_map(s).insert(d.0, d.1),
{
    let t = s.update(j, d);
    assert forall|a: int, b: int| 0 <= a < b < t.len() implies t[a].0 != t[b].0 by {
        assert(t[a].0 == s[a].0);
        assert(t[b].0 == s[b].0);
    }
    assert forall|k: Seq<char>| #[trigger] has_key(t, k) == keyed_map(s).insert(d.0, d.1).contains_key(k) by {
        if has_key(t, k) {
            let i = choose|i: int| 0 <= i < t.len() && #[trigger] t[i].0 == k;
            assert(s[i].0 == k);
        }
        if has_key(s, k) {
            let i = choose|i: int| 0 <= i < s.len() && #[trigger] s[i].0 == k;
            assert(t[i].0 == k);
        }
        if k == d.0 {
            assert(t[j].0 == k);
        }
    }
    assert forall|k: Seq<char>| has_key(t, k) implies #[trigger] keyed_map(t)[k] == keyed_map(s).insert(d.0, d.1)[k] by {
        let i = choose|i: int| 0 <= i < t.len() && #[trigger] t[i].0 == k;
        if k == d.0 {
            assert(i == j);
        } else {
            assert(t[i] == s[i]);
            lemma_map_at(s, i);
        }
    }
}

pub proof fn lemma_map_push<V>(s: Seq<(Seq<char>, V)>, d: (Seq<char>, V))
    requires
        keys_distinct(s),
        !has_key(s, d.0),
    ensures
        keys_distinct(s.push(d)),
        keyed_map(s.push(d)) =~= keyed_map(s).insert(d.0, d.1),
{
    let t = s.push(d);
    assert forall|a: int, b: int| 0 <= a < b < t.len() implies t[a].0 != t[b].0 by {
        if b == s.len() {
            assert(t[a] == s[a]);
        } else {
            assert(t[a] == s[a]);
            assert(t[b] == s[b]);
        }
    }
    assert forall|k: Seq<char>| #[trigger] has_key(t, k) == keyed_map(s).insert(d.0, d.1).contains_key(k) by {
        if has_key(t, k) {
            let i = choose|i: int| 0 <= i < t.len() && #[trigger] t[i].0 == k;
            if i < s.len() {
                assert(s[i].0 == k);
            }
        }
        if has_key(s, k) {
            let i = choose|i: int| 0 <= i < s.len() && #[trigger] s[i].0 == k;
            assert(t[i].0 == k);
        }
        if k == d.0 {
            assert(t[s.len() as int].0 == k);
        }
    }
    assert forall|k: Seq<char>| has_key(t, k) implies #[trigger] keyed_map(t)[k] == keyed_map(s).insert(d.0, d.1)[k] by {
        let i = choose|i: int| 0 <= i < t.len() && #[trigger] t[i].0 == k;
        if k == d.0 {
            if i < s.len() {
                assert(s[i].0 == d.0);
            }
        } else {
            assert(t[i] == s[i]);
            lemma_map_at(s, i);
        }
    }
}

pub proof fn lemma_map_remove<V>(s: Seq<(Seq<char>, V)>, j: int)
    requires
        keys_distinct(s),
        0 <= j < s.len(),
    ensures
        keys_distinct(s.remove(j)),
        keyed_map(s.remove(j)) =~= keyed_map(s).remove(s[j].0),
{
    let t = s.remove(j);
    let kj = s[j].0;
    assert forall|a: int, b: int| 0 <= a < b < t.len() implies t[a].0 != t[b].0 by {
        let a0 = if a < j { a } else { a + 1 };
        let b0 = if b < j { b } else { b + 1 };
        assert(t[a] == s[a0]);
        assert(t[b] == s[b0]);
    }
    assert forall|k: Seq<char>| #[trigger] has_key(t, k) == keyed_map(s).remove(kj).contains_key(k) by {
        if has_key(t, k) {
            let i = choose|i: int| 0 <= i < t.len() && #[trigger] t[i].0 == k;
            let i0 = if i < j { i } else { i + 1 };
            assert(s[i0].0 == k);
            assert(i0 != j);
        }
        if has_key(s, k) && k != kj {
            let i = choose|i: int| 0 <= i < s.len() && #[trigger] s[i].0 == k;
            assert(i != j);
            let i1 = if i < j { i } else { i - 1 };
            assert(t[i1].0 == k);
        }
    }
    assert forall|k: Seq<char>| has_key(t, k) implies #[trigger] keyed_map(t)[k] == keyed_map(s).remove(kj)[k] by {
        let i = choose|i: int| 0 <= i < t.len() && #[trigger] t[i].0 == k;
        let i0 = if i < j { i } else { i + 1 };
        assert(t[i] == s[i0]);
        lemma_map_at(s, i0);
    }
}

} // verus!
