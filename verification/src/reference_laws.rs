//! What holds of a well-formed message reference list across its operations:
//! an inserted message is read back, an updated one is read back with its new
//! content id, a removed one is no longer found, and the count follows; and
//! shrinking a list keeps what it lists, succeeding exactly when no message
//! id is listed twice.
use crate::error::Error;
use crate::limits::REFERENCE_LENGTH;
use crate::page::{has_key, key_index, keys_distinct, lemma_key_index};
use crate::reference::{
    count_from, get_page_from, has_live_key, insert_all, insert_slot_from, key_page_from, list_from, live_count,
    live_entries, remove_page_from, spec_get, spec_insert, spec_remove, spec_update, PageView,
};
use vstd::prelude::*;

verus! {

/// A chain as the operations leave it: every page holds between one and
/// `REFERENCE_LENGTH + 1` entries, every page but the last is full, and no
/// message id occurs twice, within a page or across pages.
pub open spec fn chain_wf(pages: Seq<PageView>) -> bool {
    &&& forall|i: int| 0 <= i < pages.len() ==> 1 <= #[trigger] pages[i].len() <= REFERENCE_LENGTH + 1
    &&& forall|i: int| 0 <= i < pages.len() - 1 ==> #[trigger] pages[i].len() == REFERENCE_LENGTH + 1
    &&& forall|i: int| 0 <= i < pages.len() ==> keys_distinct(#[trigger] pages[i])
    &&& forall|i: int, j: int, id: u128|
        #![trigger has_key(pages[i], id), has_key(pages[j], id)]
        0 <= i < pages.len() && 0 <= j < pages.len() && i != j && has_key(pages[i], id) ==> !has_key(pages[j], id)
}

/// Some page of the chain has the id, live or removed.
pub open spec fn chain_has(pages: Seq<PageView>, id: u128) -> bool {
    exists|i: int| 0 <= i < pages.len() && #[trigger] has_key(pages[i], id)
}

proof fn lemma_slot_at(pages: Seq<PageView>, id: u128, i: int, t: int)
    requires
        0 <= i <= t <= pages.len(),
        forall|j: int| i <= j < t ==> !has_key(#[trigger] pages[j], id) && pages[j].len() > REFERENCE_LENGTH,
        t < pages.len() ==> has_key(pages[t], id) || pages[t].len() <= REFERENCE_LENGTH,
    ensures
        insert_slot_from(pages, id, i) == t,
    decreases t - i,
{
    if i < t {
        lemma_slot_at(pages, id, i + 1, t);
    }
}

proof fn lemma_key_page_at(pages: Seq<PageView>, id: u128, i: int, t: int)
    requires
        0 <= i <= t <= pages.len(),
        forall|j: int| i <= j < t ==> !has_key(#[trigger] pages[j], id),
        t < pages.len() ==> has_key(pages[t], id),
    ensures
        key_page_from(pages, id, i) == t,
    decreases t - i,
{
    if i < t {
        lemma_key_page_at(pages, id, i + 1, t);
    }
}

proof fn lemma_remove_page_at(pages: Seq<PageView>, id: u128, i: int, t: int)
    requires
        0 <= i <= t <= pages.len(),
        forall|j: int| i <= j < t ==> !has_key(#[trigger] pages[j], id) && pages[j].len() > 0,
        t < pages.len() ==> has_key(pages[t], id) || pages[t].len() == 0,
    ensures
        remove_page_from(pages, id, i) == t,
    decreases t - i,
{
    if i < t {
        lemma_remove_page_at(pages, id, i + 1, t);
    }
}

proof fn lemma_get_page_at(pages: Seq<PageView>, id: u128, i: int, t: int)
    requires
        0 <= i <= t <= pages.len(),
        forall|j: int| i <= j < t ==> !has_live_key(#[trigger] pages[j], id) && pages[j].len() > 0,
        t < pages.len() ==> has_live_key(pages[t], id) || pages[t].len() == 0,
    ensures
        get_page_from(pages, id, i) == t,
    decreases t - i,
{
    if i < t {
        lemma_get_page_at(pages, id, i + 1, t);
    }
}

proof fn lemma_get_page_from(pages: Seq<PageView>, id: u128, i: int)
    requires
        0 <= i <= pages.len(),
    ensures
        i <= get_page_from(pages, id, i) <= pages.len(),
        get_page_from(pages, id, i) < pages.len() ==> pages[get_page_from(pages, id, i)].len() == 0
            || has_live_key(pages[get_page_from(pages, id, i)], id),
    decreases pages.len() - i,
{
    if i < pages.len() && !(pages[i].len() == 0 || has_live_key(pages[i], id)) {
        lemma_get_page_from(pages, id, i + 1);
    }
}

proof fn lemma_live_push(p: PageView, e: (u128, Option<Seq<char>>))
    ensures
        live_count(p.push(e)) == live_count(p) + if e.1 is Some { 1nat } else { 0nat },
{
    assert(p.push(e).drop_last() =~= p);
}

proof fn lemma_live_update(p: PageView, j: int, e: (u128, Option<Seq<char>>))
    requires
        0 <= j < p.len(),
    ensures
        live_count(p.update(j, e)) as int == live_count(p) as int - (if p[j].1 is Some { 1int } else { 0int })
            + (if e.1 is Some { 1int } else { 0int }),
    decreases p.len(),
{
    let q = p.update(j, e);
    if j == p.len() - 1 {
        assert(q.drop_last() =~= p.drop_last());
    } else {
        assert(q.drop_last() =~= p.drop_last().update(j, e));
        lemma_live_update(p.drop_last(), j, e);
    }
}

proof fn lemma_count_same(a: Seq<PageView>, b: Seq<PageView>, i: int)
    requires
        a.len() == b.len(),
        0 <= i,
        forall|j: int| i <= j < a.len() ==> a[j] == b[j],
    ensures
        count_from(a, i) == count_from(b, i),
    decreases a.len() - i,
{
    if i < a.len() {
        lemma_count_same(a, b, i + 1);
    }
}

proof fn lemma_count_update(a: Seq<PageView>, b: Seq<PageView>, k: int, i: int)
    requires
        a.len() == b.len(),
        0 <= i <= k < a.len(),
        forall|j: int| 0 <= j < a.len() && j != k ==> a[j] == b[j],
        forall|j: int| 0 <= j < a.len() ==> #[trigger] a[j].len() > 0 && b[j].len() > 0,
    ensures
        count_from(b, i) as int == count_from(a, i) as int - live_count(a[k]) as int + live_count(b[k]) as int,
    decreases k - i,
{
    if i == k {
        lemma_count_same(a, b, k + 1);
    } else {
        lemma_count_update(a, b, k, i + 1);
    }
}

proof fn lemma_count_push(a: Seq<PageView>, q: PageView, i: int)
    requires
        0 <= i <= a.len(),
        q.len() > 0,
        forall|j: int| 0 <= j < a.len() ==> #[trigger] a[j].len() > 0,
    ensures
        count_from(a.push(q), i) == count_from(a, i) + live_count(q),
    decreases a.len() - i,
{
    if i < a.len() {
        lemma_count_push(a, q, i + 1);
    } else {
        assert(count_from(a.push(q), i + 1) == 0);
    }
}

proof fn lemma_has_key_push(p: PageView, id: u128, v: Option<Seq<char>>)
    requires
        !has_key(p, id),
    ensures
        key_index(p.push((id, v)), id) == p.len(),
        forall|x: u128| #[trigger] has_key(p.push((id, v)), x) <==> has_key(p, x) || x == id,
        keys_distinct(p) ==> keys_distinct(p.push((id, v))),
{
    let q = p.push((id, v));
    assert(q[p.len() as int].0 == id);
    lemma_key_index(q, id);
    if key_index(q, id) < p.len() {
        assert(p[key_index(q, id)].0 == id);
    }
    assert forall|x: u128| #[trigger] has_key(q, x) implies has_key(p, x) || x == id by {
        let i = choose|i: int| 0 <= i < q.len() && #[trigger] q[i].0 == x;
        if i < p.len() {
            assert(p[i].0 == x);
        }
    }
    assert forall|x: u128| has_key(p, x) implies #[trigger] has_key(q, x) by {
        let i = choose|i: int| 0 <= i < p.len() && #[trigger] p[i].0 == x;
        assert(q[i].0 == x);
    }
    if keys_distinct(p) {
        assert forall|i: int, j: int| 0 <= i < q.len() && 0 <= j < q.len() && i != j implies #[trigger] q[i].0
            != #[trigger] q[j].0 by {
            if i == p.len() {
                assert(p[j].0 == q[j].0);
            } else if j == p.len() {
                assert(p[i].0 == q[i].0);
            }
        }
    }
}

proof fn lemma_update_same_key(p: PageView, id: u128, v: Option<Seq<char>>)
    requires
        has_key(p, id),
    ensures
        key_index(p.update(key_index(p, id), (id, v)), id) == key_index(p, id),
        forall|x: u128| #[trigger] has_key(p.update(key_index(p, id), (id, v)), x) <==> has_key(p, x),
        keys_distinct(p) ==> keys_distinct(p.update(key_index(p, id), (id, v))),
        p.update(key_index(p, id), (id, v)).len() == p.len(),
{
    lemma_key_index(p, id);
    let k = key_index(p, id);
    let q = p.update(k, (id, v));
    assert forall|j: int| 0 <= j < q.len() implies #[trigger] q[j].0 == p[j].0 by {}
    assert(q[k].0 == id);
    assert(has_key(q, id));
    lemma_key_index(q, id);
    let kq = key_index(q, id);
    if kq < k {
        assert(p[kq].0 == id);
    } else if kq > k {
        assert(q[k].0 == id);
    }
    assert forall|x: u128| #[trigger] has_key(q, x) implies has_key(p, x) by {
        let i = choose|i: int| 0 <= i < q.len() && #[trigger] q[i].0 == x;
        assert(p[i].0 == x);
    }
    assert forall|x: u128| has_key(p, x) implies #[trigger] has_key(q, x) by {
        let i = choose|i: int| 0 <= i < p.len() && #[trigger] p[i].0 == x;
        assert(q[i].0 == x);
    }
}

/// Inserting a message into a well-formed chain succeeds exactly when its id
/// is nowhere in the chain (not even as a removed entry). Afterwards the
/// chain is still well formed, reading the message gives back its content id,
/// and the count has grown by one.
pub proof fn law_insert_then_get(pages: Seq<PageView>, id: u128, cid: Seq<char>)
    requires
        chain_wf(pages),
    ensures
        spec_insert(pages, id, cid) is Ok <==> !chain_has(pages, id),
        spec_insert(pages, id, cid) matches Ok(p) ==> {
            &&& chain_wf(p)
            &&& chain_has(p, id)
            &&& spec_get(p, id) == Ok::<Seq<char>, Error>(cid)
            &&& count_from(p, 0) == count_from(pages, 0) + 1
        },
{
    let n = pages.len() as int;
    if chain_has(pages, id) {
        let m = choose|i: int| 0 <= i < pages.len() && #[trigger] has_key(pages[i], id);
        assert forall|j: int| 0 <= j < m implies !has_key(#[trigger] pages[j], id) && pages[j].len() > REFERENCE_LENGTH by {
            assert(pages[j].len() == REFERENCE_LENGTH + 1);
        }
        lemma_slot_at(pages, id, 0, m);
    } else {
        let e = (id, Some(cid));
        if n > 0 && pages[n - 1].len() <= REFERENCE_LENGTH {
            assert forall|j: int| 0 <= j < n - 1 implies !has_key(#[trigger] pages[j], id) && pages[j].len()
                > REFERENCE_LENGTH by {
                assert(pages[j].len() == REFERENCE_LENGTH + 1);
            }
            lemma_slot_at(pages, id, 0, n - 1);
            let q = pages[n - 1].push(e);
            let p = pages.update(n - 1, q);
            lemma_has_key_push(pages[n - 1], id, Some(cid));
            assert(has_key(p[n - 1], id));
            // well formed
            assert forall|i: int, j: int, x: u128|
                #![trigger has_key(p[i], x), has_key(p[j], x)]
                0 <= i < p.len() && 0 <= j < p.len() && i != j && has_key(p[i], x) implies !has_key(p[j], x) by {
                if i == n - 1 {
                    if x != id {
                        assert(has_key(pages[i], x));
                        assert(!has_key(pages[j], x));
                    }
                } else if j == n - 1 {
                    assert(has_key(pages[i], x));
                    if x == id {
                        assert(chain_has(pages, id));
                    }
                }
            }
            assert forall|i: int| 0 <= i < p.len() implies keys_distinct(#[trigger] p[i]) by {
                if i == n - 1 {
                    assert(keys_distinct(pages[i]));
                }
            }
            // read back
            assert(has_live_key(p[n - 1], id));
            assert forall|j: int| 0 <= j < n - 1 implies !has_live_key(#[trigger] p[j], id) && p[j].len() > 0 by {
                assert(p[j] == pages[j]);
            }
            lemma_get_page_at(p, id, 0, n - 1);
            // count
            lemma_count_update(pages, p, n - 1, 0);
            lemma_live_push(pages[n - 1], e);
            assert(chain_has(p, id));
        } else {
            assert forall|j: int| 0 <= j < n implies !has_key(#[trigger] pages[j], id) && pages[j].len()
                > REFERENCE_LENGTH by {
                if j < n - 1 {
                    assert(pages[j].len() == REFERENCE_LENGTH + 1);
                }
            }
            lemma_slot_at(pages, id, 0, n);
            let q = seq![e];
            let p = pages.push(q);
            assert(q[0].0 == id);
            assert(has_key(q, id));
            lemma_key_index(q, id);
            assert forall|x: u128| #[trigger] has_key(q, x) implies x == id by {
                let i = choose|i: int| 0 <= i < q.len() && #[trigger] q[i].0 == x;
            }
            assert forall|i: int, j: int, x: u128|
                #![trigger has_key(p[i], x), has_key(p[j], x)]
                0 <= i < p.len() && 0 <= j < p.len() && i != j && has_key(p[i], x) implies !has_key(p[j], x) by {
                if i == n {
                    assert(x == id);
                    assert(p[j] == pages[j]);
                } else if j == n {
                    assert(p[i] == pages[i]);
                    if has_key(q, x) {
                        assert(x == id);
                        assert(chain_has(pages, id));
                    }
                } else {
                    assert(p[i] == pages[i]);
                    assert(p[j] == pages[j]);
                }
            }
            assert forall|i: int| 0 <= i < p.len() implies keys_distinct(#[trigger] p[i]) by {
                if i < n {
                    assert(p[i] == pages[i]);
                }
            }
            assert forall|i: int| 0 <= i < p.len() - 1 implies #[trigger] p[i].len() == REFERENCE_LENGTH + 1 by {
                assert(p[i] == pages[i]);
                assert(1 <= pages[i].len() <= REFERENCE_LENGTH + 1);
            }
            assert(has_live_key(p[n], id));
            assert forall|j: int| 0 <= j < n implies !has_live_key(#[trigger] p[j], id) && p[j].len() > 0 by {
                assert(p[j] == pages[j]);
            }
            lemma_get_page_at(p, id, 0, n);
            lemma_count_push(pages, q, 0);
            assert(live_count(q) == 1) by {
                assert(q.drop_last() =~= Seq::<(u128, Option<Seq<char>>)>::empty());
                assert(live_count(q.drop_last()) == 0);
                assert(q.last() == e);
            }
            assert(chain_has(p, id));
        }
    }
}

proof fn lemma_live_page(pages: Seq<PageView>, id: u128) -> (m: int)
    requires
        chain_wf(pages),
        spec_get(pages, id) is Ok,
    ensures
        0 <= m < pages.len(),
        has_live_key(pages[m], id),
        forall|j: int| 0 <= j < pages.len() && j != m ==> !has_key(#[trigger] pages[j], id),
        spec_get(pages, id) == Ok::<Seq<char>, Error>(pages[m][key_index(pages[m], id)].1.unwrap()),
{
    lemma_get_page_from(pages, id, 0);
    let m = get_page_from(pages, id, 0);
    assert(has_key(pages[m], id));
    assert forall|j: int| 0 <= j < pages.len() && j != m implies !has_key(#[trigger] pages[j], id) by {
        assert(has_key(pages[m], id));
    }
    m
}

/// Removing a message that a well-formed chain holds succeeds; afterwards the
/// chain is still well formed, the message is no longer found, and the count
/// has shrunk by one.
pub proof fn law_remove_then_get(pages: Seq<PageView>, id: u128)
    requires
        chain_wf(pages),
        spec_get(pages, id) is Ok,
    ensures
        spec_remove(pages, id) matches Ok(p) && {
            &&& chain_wf(p)
            &&& spec_get(p, id) == Err::<Seq<char>, Error>(Error::MessageNotFound)
            &&& count_from(p, 0) + 1 == count_from(pages, 0)
        },
{
    let m = lemma_live_page(pages, id);
    let n = pages.len() as int;
    assert forall|j: int| 0 <= j < m implies !has_key(#[trigger] pages[j], id) && pages[j].len() > 0 by {}
    lemma_remove_page_at(pages, id, 0, m);
    lemma_key_index(pages[m], id);
    let k = key_index(pages[m], id);
    let q = pages[m].update(k, (id, None));
    let p = pages.update(m, q);
    lemma_update_same_key(pages[m], id, None);
    assert(spec_remove(pages, id) == Ok::<Seq<PageView>, Error>(p));
    assert forall|i: int, j: int, x: u128|
        #![trigger has_key(p[i], x), has_key(p[j], x)]
        0 <= i < p.len() && 0 <= j < p.len() && i != j && has_key(p[i], x) implies !has_key(p[j], x) by {
        assert(has_key(pages[i], x));
    }
    assert forall|i: int| 0 <= i < p.len() implies keys_distinct(#[trigger] p[i]) by {
        assert(keys_distinct(pages[i]));
    }
    assert forall|j: int| 0 <= j < n implies !has_live_key(#[trigger] p[j], id) && p[j].len() > 0 by {
        if j != m {
            assert(p[j] == pages[j]);
        }
    }
    lemma_get_page_at(p, id, 0, n);
    lemma_count_update(pages, p, m, 0);
    lemma_live_update(pages[m], k, (id, None));
}

/// Updating a message that a well-formed chain holds succeeds; afterwards the
/// chain is still well formed, reading the message gives the new content id,
/// and the count is unchanged.
pub proof fn law_update_then_get(pages: Seq<PageView>, id: u128, cid: Seq<char>)
    requires
        chain_wf(pages),
        spec_get(pages, id) is Ok,
    ensures
        spec_update(pages, id, cid) matches Ok(p) && {
            &&& chain_wf(p)
            &&& spec_get(p, id) == Ok::<Seq<char>, Error>(cid)
            &&& count_from(p, 0) == count_from(pages, 0)
        },
{
    let m = lemma_live_page(pages, id);
    let n = pages.len() as int;
    lemma_key_page_at(pages, id, 0, m);
    lemma_key_index(pages[m], id);
    let k = key_index(pages[m], id);
    let q = pages[m].update(k, (id, Some(cid)));
    let p = pages.update(m, q);
    lemma_update_same_key(pages[m], id, Some(cid));
    assert(spec_update(pages, id, cid) == Ok::<Seq<PageView>, Error>(p));
    assert forall|i: int, j: int, x: u128|
        #![trigger has_key(p[i], x), has_key(p[j], x)]
        0 <= i < p.len() && 0 <= j < p.len() && i != j && has_key(p[i], x) implies !has_key(p[j], x) by {
        assert(has_key(pages[i], x));
    }
    assert forall|i: int| 0 <= i < p.len() implies keys_distinct(#[trigger] p[i]) by {
        assert(keys_distinct(pages[i]));
    }
    assert forall|j: int| 0 <= j < m implies !has_live_key(#[trigger] p[j], id) && p[j].len() > 0 by {
        assert(p[j] == pages[j]);
    }
    assert(has_live_key(p[m], id));
    lemma_get_page_at(p, id, 0, m);
    lemma_count_update(pages, p, m, 0);
    lemma_live_update(pages[m], k, (id, Some(cid)));
}

/// In a well-formed chain, a message that is not found cannot be updated or
/// removed either.
pub proof fn law_missing_message(pages: Seq<PageView>, id: u128, cid: Seq<char>)
    requires
        chain_wf(pages),
        spec_get(pages, id) is Err,
    ensures
        spec_update(pages, id, cid) == Err::<Seq<PageView>, Error>(Error::MessageNotFound),
        spec_remove(pages, id) == Err::<Seq<PageView>, Error>(Error::MessageNotFound),
        spec_get(pages, id) == Err::<Seq<char>, Error>(Error::MessageNotFound),
{
    lemma_get_page_from(pages, id, 0);
    let g = get_page_from(pages, id, 0);
    // no page holds a live entry for id
    assert(g == pages.len());
    if chain_has(pages, id) {
        let m = choose|i: int| 0 <= i < pages.len() && #[trigger] has_key(pages[i], id);
        assert forall|j: int| 0 <= j < m implies !has_key(#[trigger] pages[j], id) && pages[j].len() > 0 by {}
        lemma_key_page_at(pages, id, 0, m);
        lemma_remove_page_at(pages, id, 0, m);
        assert(!has_live_key(pages[m], id)) by {
            if has_live_key(pages[m], id) {
                assert forall|j: int| 0 <= j < m implies !has_live_key(#[trigger] pages[j], id) && pages[j].len() > 0 by {}
                lemma_get_page_at(pages, id, 0, m);
            }
        }
    } else {
        assert forall|j: int| 0 <= j < pages.len() implies !has_key(#[trigger] pages[j], id) && pages[j].len() > 0 by {
            assert(!has_key(pages[j], id));
        }
        lemma_key_page_at(pages, id, 0, pages.len() as int);
        lemma_remove_page_at(pages, id, 0, pages.len() as int);
    }
}

/// Every entry of every page holds a content id.
pub open spec fn all_live(pages: Seq<PageView>) -> bool {
    forall|i: int, j: int| 0 <= i < pages.len() && 0 <= j < pages[i].len() ==> (#[trigger] pages[i][j]).1 is Some
}

/// Every page holds an entry, and every page but the last is full.
pub open spec fn packed(pages: Seq<PageView>) -> bool {
    &&& forall|i: int| 0 <= i < pages.len() ==> #[trigger] pages[i].len() >= 1
    &&& forall|i: int| 0 <= i < pages.len() - 1 ==> #[trigger] pages[i].len() > REFERENCE_LENGTH
}

proof fn lemma_slot_from(pages: Seq<PageView>, id: u128, i: int)
    requires
        0 <= i <= pages.len(),
    ensures
        i <= insert_slot_from(pages, id, i) <= pages.len(),
        forall|j: int|
            i <= j < insert_slot_from(pages, id, i) ==> !has_key(#[trigger] pages[j], id) && pages[j].len()
                > REFERENCE_LENGTH,
        insert_slot_from(pages, id, i) < pages.len() ==> has_key(pages[insert_slot_from(pages, id, i)], id)
            || pages[insert_slot_from(pages, id, i)].len() <= REFERENCE_LENGTH,
    decreases pages.len() - i,
{
    if i < pages.len() && !has_key(pages[i], id) && pages[i].len() > REFERENCE_LENGTH {
        lemma_slot_from(pages, id, i + 1);
    }
}

proof fn lemma_list_push(pages: Seq<PageView>, x: PageView, i: int)
    requires
        0 <= i <= pages.len(),
    ensures
        list_from(pages.push(x), i) == list_from(pages, i) + live_entries(x, 0),
    decreases pages.len() - i,
{
    if i < pages.len() {
        assert(pages.push(x)[i] == pages[i]);
        lemma_list_push(pages, x, i + 1);
        assert(live_entries(pages[i], 0) + (list_from(pages, i + 1) + live_entries(x, 0)) =~= (live_entries(pages[i], 0)
            + list_from(pages, i + 1)) + live_entries(x, 0));
    } else {
        assert(pages.push(x)[i] == x);
        assert(list_from(pages.push(x), i + 1) =~= Seq::<(u128, Seq<char>)>::empty());
        assert(list_from(pages, i) =~= Seq::<(u128, Seq<char>)>::empty());
        assert(list_from(pages.push(x), i) =~= live_entries(x, 0));
    }
}

/// Inserting into a packed chain of live entries appends to what it lists.
proof fn lemma_insert_packed(pages: Seq<PageView>, id: u128, cid: Seq<char>)
    requires
        all_live(pages),
        packed(pages),
        spec_insert(pages, id, cid) is Ok,
    ensures
        all_live(spec_insert(pages, id, cid)->Ok_0),
        packed(spec_insert(pages, id, cid)->Ok_0),
        list_from(spec_insert(pages, id, cid)->Ok_0, 0) == list_from(pages, 0).push((id, cid)),
{
    let n = pages.len() as int;
    let q = spec_insert(pages, id, cid)->Ok_0;
    let e = (id, Some(cid));
    lemma_slot_from(pages, id, 0);
    let k = insert_slot_from(pages, id, 0);
    if k < n {
        assert(!has_key(pages[k], id));
        assert(k == n - 1);
        let last = pages[n - 1].push(e);
        assert(q == pages.update(n - 1, last));
        let front = pages.drop_last();
        assert(q =~= front.push(last));
        assert(pages =~= front.push(pages[n - 1]));
        lemma_list_push(front, last, 0);
        lemma_list_push(front, pages[n - 1], 0);
        lemma_live_entries_push(pages[n - 1], e, 0);
        assert(list_from(q, 0) =~= list_from(pages, 0).push((id, cid)));
        assert forall|i: int, j: int| 0 <= i < q.len() && 0 <= j < q[i].len() implies (#[trigger] q[i][j]).1 is Some by {
            if i == n - 1 && j == pages[n - 1].len() {
                assert(q[i][j] == e);
            } else {
                assert(q[i][j] == pages[i][j]);
            }
        }
    } else {
        assert(q == pages.push(seq![e]));
        lemma_list_push(pages, seq![e], 0);
        assert(live_entries(seq![e], 1) =~= Seq::<(u128, Seq<char>)>::empty());
        assert(live_entries(seq![e], 0) =~= seq![(id, cid)]);
        assert(list_from(q, 0) =~= list_from(pages, 0).push((id, cid)));
        assert forall|i: int, j: int| 0 <= i < q.len() && 0 <= j < q[i].len() implies (#[trigger] q[i][j]).1 is Some by {
            if i == n {
                assert(q[i][j] == e);
            } else {
                assert(q[i][j] == pages[i][j]);
            }
        }
    }
}

proof fn lemma_insert_all_packed(entries: Seq<(u128, Seq<char>)>)
    requires
        insert_all(Seq::empty(), entries) is Ok,
    ensures
        all_live(insert_all(Seq::empty(), entries)->Ok_0),
        packed(insert_all(Seq::empty(), entries)->Ok_0),
        list_from(insert_all(Seq::empty(), entries)->Ok_0, 0) == entries,
    decreases entries.len(),
{
    if entries.len() == 0 {
        assert(list_from(Seq::<PageView>::empty(), 0) =~= entries);
    } else {
        let front = entries.drop_last();
        let e = entries.last();
        lemma_insert_all_packed(front);
        let p = insert_all(Seq::empty(), front)->Ok_0;
        lemma_insert_packed(p, e.0, e.1);
        assert(front.push(e) =~= entries);
    }
}

/// Shrinking a list (inserting what it lists into a fresh one) keeps what
/// it lists, in order: the removed entries go, the pages are filled again.
pub proof fn law_shrink_keeps_listing(pages: Seq<PageView>)
    requires
        insert_all(Seq::empty(), list_from(pages, 0)) is Ok,
    ensures
        list_from(insert_all(Seq::empty(), list_from(pages, 0))->Ok_0, 0) == list_from(pages, 0),
        all_live(insert_all(Seq::empty(), list_from(pages, 0))->Ok_0),
{
    lemma_insert_all_packed(list_from(pages, 0));
}

/// Some listed entry has the id.
pub open spec fn lists_id(l: Seq<(u128, Seq<char>)>, id: u128) -> bool {
    exists|m: int| 0 <= m < l.len() && #[trigger] l[m].0 == id
}

/// No id is listed twice.
pub open spec fn ids_distinct(l: Seq<(u128, Seq<char>)>) -> bool {
    forall|a: int, b: int| 0 <= a < b < l.len() ==> #[trigger] l[a].0 != #[trigger] l[b].0
}

proof fn lemma_live_entries_all(p: PageView, j: int)
    requires
        0 <= j <= p.len(),
        forall|k: int| j <= k < p.len() ==> (#[trigger] p[k]).1 is Some,
    ensures
        live_entries(p, j).len() == p.len() - j,
        forall|m: int| 0 <= m < p.len() - j ==> #[trigger] live_entries(p, j)[m] == (p[j + m].0, p[j + m].1.unwrap()),
    decreases p.len() - j,
{
    if j < p.len() {
        lemma_live_entries_all(p, j + 1);
        assert forall|m: int| 0 <= m < p.len() - j implies #[trigger] live_entries(p, j)[m] == (
            p[j + m].0,
            p[j + m].1.unwrap(),
        ) by {
            if m > 0 {
                assert(live_entries(p, j)[m] == live_entries(p, j + 1)[m - 1]);
            }
        }
    }
}

proof fn lemma_lists_concat(a: Seq<(u128, Seq<char>)>, b: Seq<(u128, Seq<char>)>, id: u128)
    ensures
        lists_id(a + b, id) <==> lists_id(a, id) || lists_id(b, id),
{
    if lists_id(a + b, id) {
        let m = choose|m: int| 0 <= m < (a + b).len() && #[trigger] (a + b)[m].0 == id;
        if m >= a.len() {
            assert(b[m - a.len()].0 == id);
        } else {
            assert(a[m].0 == id);
        }
    }
    if lists_id(a, id) {
        let m = choose|m: int| 0 <= m < a.len() && #[trigger] a[m].0 == id;
        assert((a + b)[m].0 == id);
    }
    if lists_id(b, id) {
        let m = choose|m: int| 0 <= m < b.len() && #[trigger] b[m].0 == id;
        assert((a + b)[a.len() + m].0 == id);
    }
}

proof fn lemma_lists_chain(pages: Seq<PageView>, id: u128, i: int)
    requires
        all_live(pages),
        0 <= i <= pages.len(),
    ensures
        lists_id(list_from(pages, i), id) <==> exists|k: int| i <= k < pages.len() && #[trigger] has_key(pages[k], id),
    decreases pages.len() - i,
{
    if i < pages.len() {
        lemma_lists_chain(pages, id, i + 1);
        let p = pages[i];
        assert forall|k: int| 0 <= k < p.len() implies (#[trigger] p[k]).1 is Some by {
            assert(pages[i][k].1 is Some);
        }
        lemma_live_entries_all(p, 0);
        lemma_lists_concat(live_entries(p, 0), list_from(pages, i + 1), id);
        if has_key(p, id) {
            let j = choose|j: int| 0 <= j < p.len() && #[trigger] p[j].0 == id;
            assert(live_entries(p, 0)[j].0 == id);
        }
        if lists_id(live_entries(p, 0), id) {
            let m = choose|m: int| 0 <= m < live_entries(p, 0).len() && #[trigger] live_entries(p, 0)[m].0 == id;
            assert(p[m].0 == id);
        }
        if exists|k: int| i <= k < pages.len() && #[trigger] has_key(pages[k], id) {
            let k = choose|k: int| i <= k < pages.len() && #[trigger] has_key(pages[k], id);
            if k > i {
                assert(exists|k2: int| i + 1 <= k2 < pages.len() && #[trigger] has_key(pages[k2], id));
            }
        }
    } else {
        assert(list_from(pages, i) =~= Seq::<(u128, Seq<char>)>::empty());
    }
}

proof fn lemma_insert_found(pages: Seq<PageView>, id: u128, cid: Seq<char>)
    requires
        all_live(pages),
        packed(pages),
    ensures
        spec_insert(pages, id, cid) is Err <==> lists_id(list_from(pages, 0), id),
        spec_insert(pages, id, cid) is Err ==> spec_insert(pages, id, cid) == Err::<Seq<PageView>, Error>(
            Error::MessageFound,
        ),
{
    let n = pages.len() as int;
    lemma_lists_chain(pages, id, 0);
    lemma_slot_from(pages, id, 0);
    let t = insert_slot_from(pages, id, 0);
    if exists|k: int| 0 <= k < n && #[trigger] has_key(pages[k], id) {
        let k = choose|k: int| 0 <= k < n && #[trigger] has_key(pages[k], id);
        assert(t <= k);
        assert(has_key(pages[t], id));
    }
}

/// Inserting entries one after the other into an empty list succeeds
/// exactly when no id comes twice; otherwise the message is found.
pub proof fn law_insert_all_distinct(entries: Seq<(u128, Seq<char>)>)
    ensures
        insert_all(Seq::empty(), entries) is Ok <==> ids_distinct(entries),
        insert_all(Seq::empty(), entries) is Err ==> insert_all(Seq::empty(), entries) == Err::<
            Seq<PageView>,
            Error,
        >(Error::MessageFound),
    decreases entries.len(),
{
    if entries.len() > 0 {
        let front = entries.drop_last();
        let e = entries.last();
        law_insert_all_distinct(front);
        let n = entries.len() as int;
        assert(ids_distinct(entries) <==> ids_distinct(front) && !lists_id(front, e.0)) by {
            if ids_distinct(entries) {
                assert forall|a: int, b: int| 0 <= a < b < front.len() implies #[trigger] front[a].0
                    != #[trigger] front[b].0 by {
                    assert(entries[a].0 != entries[b].0);
                }
                if lists_id(front, e.0) {
                    let m = choose|m: int| 0 <= m < front.len() && #[trigger] front[m].0 == e.0;
                    assert(entries[m].0 != entries[n - 1].0);
                }
            }
            if ids_distinct(front) && !lists_id(front, e.0) {
                assert forall|a: int, b: int| 0 <= a < b < entries.len() implies #[trigger] entries[a].0
                    != #[trigger] entries[b].0 by {
                    if b < n - 1 {
                        assert(front[a].0 != front[b].0);
                    } else {
                        assert(front[a].0 == entries[a].0);
                    }
                }
            }
        }
        if insert_all(Seq::empty(), front) is Ok {
            lemma_insert_all_packed(front);
            let p = insert_all(Seq::empty(), front)->Ok_0;
            lemma_insert_found(p, e.0, e.1);
        }
    }
}

/// Shrinking a list succeeds exactly when no message id is listed twice;
/// otherwise the message is found.
pub proof fn law_shrink_succeeds(pages: Seq<PageView>)
    ensures
        insert_all(Seq::empty(), list_from(pages, 0)) is Ok <==> ids_distinct(list_from(pages, 0)),
        insert_all(Seq::empty(), list_from(pages, 0)) is Err ==> insert_all(Seq::empty(), list_from(pages, 0))
            == Err::<Seq<PageView>, Error>(Error::MessageFound),
{
    law_insert_all_distinct(list_from(pages, 0));
}

/// The page sizes a chain keeps: no page holds more than
/// `REFERENCE_LENGTH + 1` entries, and a page has a next one only when it
/// holds more than `REFERENCE_LENGTH`.
pub open spec fn page_shape(pages: Seq<PageView>) -> bool {
    forall|i: int|
        0 <= i < pages.len() ==> #[trigger] pages[i].len() <= REFERENCE_LENGTH + 1 && (i < pages.len() - 1
            ==> pages[i].len() > REFERENCE_LENGTH)
}

proof fn lemma_slot_facts(pages: Seq<PageView>, id: u128, i: int)
    requires
        0 <= i <= pages.len(),
    ensures
        i <= insert_slot_from(pages, id, i) <= pages.len(),
        forall|j: int|
            i <= j < insert_slot_from(pages, id, i) ==> !has_key(#[trigger] pages[j], id) && pages[j].len()
                > REFERENCE_LENGTH,
        insert_slot_from(pages, id, i) < pages.len() ==> has_key(pages[insert_slot_from(pages, id, i)], id)
            || pages[insert_slot_from(pages, id, i)].len() <= REFERENCE_LENGTH,
    decreases pages.len() - i,
{
    if i < pages.len() && !(has_key(pages[i], id) || pages[i].len() <= REFERENCE_LENGTH) {
        lemma_slot_facts(pages, id, i + 1);
    }
}

/// Inserting keeps the page sizes, on any chain of that shape: the new
/// entry goes at the end of the first page with room (a new last page when
/// every page is full), and no entry moves.
pub proof fn law_insert_keeps_page_shape(pages: Seq<PageView>, id: u128, cid: Seq<char>)
    requires
        page_shape(pages),
        spec_insert(pages, id, cid) is Ok,
    ensures
        page_shape(spec_insert(pages, id, cid)->Ok_0),
        ({
            let after = spec_insert(pages, id, cid)->Ok_0;
            let k = insert_slot_from(pages, id, 0);
            &&& forall|j: int| 0 <= j < k ==> #[trigger] pages[j].len() > REFERENCE_LENGTH
            &&& k < pages.len() ==> pages[k].len() <= REFERENCE_LENGTH && after == pages.update(
                k,
                pages[k].push((id, Some(cid))),
            )
            &&& k == pages.len() ==> after == pages.push(seq![(id, Some(cid))])
        }),
{
    lemma_slot_facts(pages, id, 0);
    let k = insert_slot_from(pages, id, 0);
    let after = spec_insert(pages, id, cid)->Ok_0;
    if k < pages.len() {
        assert(!has_key(pages[k], id));
        assert(pages[k].len() <= REFERENCE_LENGTH);
        assert(k == pages.len() - 1) by {
            if k < pages.len() - 1 {
                assert(pages[k].len() > REFERENCE_LENGTH);
            }
        }
        assert forall|i: int| 0 <= i < after.len() implies #[trigger] after[i].len() <= REFERENCE_LENGTH + 1 && (i
            < after.len() - 1 ==> after[i].len() > REFERENCE_LENGTH) by {
            if i != k {
                assert(after[i] == pages[i]);
            }
        }
    } else {
        assert forall|i: int| 0 <= i < after.len() implies #[trigger] after[i].len() <= REFERENCE_LENGTH + 1 && (i
            < after.len() - 1 ==> after[i].len() > REFERENCE_LENGTH) by {
            if i < pages.len() {
                assert(after[i] == pages[i]);
                assert(pages[i].len() > REFERENCE_LENGTH);
            }
        }
    }
}

proof fn lemma_live_entries_push(p: PageView, e: (u128, Option<Seq<char>>), j: int)
    requires
        0 <= j <= p.len(),
    ensures
        live_entries(p.push(e), j) == live_entries(p, j) + if e.1 is Some {
            seq![(e.0, e.1.unwrap())]
        } else {
            Seq::<(u128, Seq<char>)>::empty()
        },
    decreases p.len() - j,
{
    let tail = if e.1 is Some {
        seq![(e.0, e.1.unwrap())]
    } else {
        Seq::<(u128, Seq<char>)>::empty()
    };
    if j < p.len() {
        assert(p.push(e)[j] == p[j]);
        lemma_live_entries_push(p, e, j + 1);
        if p[j].1 is Some {
            assert(seq![(p[j].0, p[j].1.unwrap())] + (live_entries(p, j + 1) + tail) =~= (seq![
                (p[j].0, p[j].1.unwrap()),
            ] + live_entries(p, j + 1)) + tail);
        }
    } else {
        assert(p.push(e)[j] == e);
        assert(live_entries(p.push(e), j + 1) =~= Seq::<(u128, Seq<char>)>::empty());
        assert(live_entries(p, j) =~= Seq::<(u128, Seq<char>)>::empty());
        assert(live_entries(p.push(e), j) =~= tail);
    }
}

/// A page lists as many entries as it holds content ids.
proof fn lemma_live_entries_count(p: PageView)
    ensures
        live_entries(p, 0).len() == live_count(p),
    decreases p.len(),
{
    if p.len() > 0 {
        let q = p.drop_last();
        lemma_live_entries_count(q);
        lemma_live_entries_push(q, p.last(), 0);
        assert(q.push(p.last()) =~= p);
    } else {
        assert(live_entries(p, 0) =~= Seq::<(u128, Seq<char>)>::empty());
    }
}

proof fn lemma_list_count_from(pages: Seq<PageView>, i: int)
    requires
        0 <= i <= pages.len(),
        forall|k: int| 0 <= k < pages.len() ==> #[trigger] pages[k].len() >= 1,
    ensures
        list_from(pages, i).len() == count_from(pages, i),
    decreases pages.len() - i,
{
    if i < pages.len() {
        lemma_list_count_from(pages, i + 1);
        lemma_live_entries_count(pages[i]);
        assert(pages[i].len() >= 1);
    }
}

/// On a chain whose pages each hold an entry, `list` yields every message
/// that holds a content id, so as many as `count` answers.
pub proof fn law_list_matches_count(pages: Seq<PageView>)
    requires
        forall|k: int| 0 <= k < pages.len() ==> #[trigger] pages[k].len() >= 1,
    ensures
        list_from(pages, 0).len() == count_from(pages, 0),
{
    lemma_list_count_from(pages, 0);
}

/// Shrinking a chain whose pages each hold an entry keeps every message
/// that holds a content id: the new chain lists the same messages, in
/// order, holds no removed entry, and counts as many.
pub proof fn law_shrink_keeps_count(pages: Seq<PageView>)
    requires
        forall|k: int| 0 <= k < pages.len() ==> #[trigger] pages[k].len() >= 1,
        insert_all(Seq::empty(), list_from(pages, 0)) is Ok,
    ensures
        count_from(insert_all(Seq::empty(), list_from(pages, 0))->Ok_0, 0) == count_from(pages, 0),
{
    let after = insert_all(Seq::empty(), list_from(pages, 0))->Ok_0;
    law_shrink_keeps_listing(pages);
    lemma_insert_all_packed(list_from(pages, 0));
    assert forall|k: int| 0 <= k < after.len() implies #[trigger] after[k].len() >= 1 by {}
    lemma_list_count_from(after, 0);
    lemma_list_count_from(pages, 0);
}

proof fn lemma_count_empty_last(a: Seq<PageView>, i: int)
    requires
        0 <= i <= a.len(),
    ensures
        count_from(a.push(Seq::empty()), i) == count_from(a, i),
    decreases a.len() - i,
{
    if i < a.len() {
        lemma_count_empty_last(a, i + 1);
        assert(a.push(Seq::empty())[i] == a[i]);
    } else {
        assert(a.push(Seq::empty())[i].len() == 0);
    }
}

/// Inserting into a chain of the page shape: it is refused exactly when
/// some page holds the id (live or removed), with `MessageFound`; otherwise
/// the chain keeps its shape, the message reads back, and the count grows by
/// one. No more than the page shape is assumed.
pub proof fn law_insert_then_get_in_shape(pages: Seq<PageView>, id: u128, cid: Seq<char>)
    requires
        page_shape(pages),
    ensures
        spec_insert(pages, id, cid) is Err <==> chain_has(pages, id),
        spec_insert(pages, id, cid) is Err ==> spec_insert(pages, id, cid) == Err::<Seq<PageView>, Error>(
            Error::MessageFound,
        ),
        spec_insert(pages, id, cid) matches Ok(p) ==> {
            &&& page_shape(p)
            &&& spec_get(p, id) == Ok::<Seq<char>, Error>(cid)
            &&& count_from(p, 0) == count_from(pages, 0) + 1
        },
{
    let n = pages.len() as int;
    lemma_slot_facts(pages, id, 0);
    let k = insert_slot_from(pages, id, 0);
    if chain_has(pages, id) {
        let m = choose|i: int| 0 <= i < pages.len() && #[trigger] has_key(pages[i], id);
        assert(k <= m);
        if !has_key(pages[k], id) {
            assert(pages[k].len() <= REFERENCE_LENGTH);
            assert(k == n - 1) by {
                if k < n - 1 {
                    assert(pages[k].len() > REFERENCE_LENGTH);
                }
            }
        }
    } else {
        if k < n {
            assert(!has_key(pages[k], id));
        }
        law_insert_keeps_page_shape(pages, id, cid);
        let e = (id, Some(cid));
        let p = spec_insert(pages, id, cid)->Ok_0;
        assert forall|j: int| 0 <= j < n - 1 implies #[trigger] pages[j].len() > REFERENCE_LENGTH by {}
        if k < n {
            assert(k == n - 1) by {
                if k < n - 1 {
                    assert(pages[k].len() > REFERENCE_LENGTH);
                }
            }
            let q = pages[n - 1].push(e);
            assert(p == pages.update(n - 1, q));
            lemma_has_key_push(pages[n - 1], id, Some(cid));
            assert(q[pages[n - 1].len() as int] == e);
            assert(has_live_key(p[n - 1], id));
            assert forall|j: int| 0 <= j < n - 1 implies !has_live_key(#[trigger] p[j], id) && p[j].len() > 0 by {
                assert(p[j] == pages[j]);
            }
            lemma_get_page_at(p, id, 0, n - 1);
            lemma_live_push(pages[n - 1], e);
            if pages[n - 1].len() > 0 {
                assert forall|j: int| 0 <= j < pages.len() implies #[trigger] pages[j].len() > 0 && p[j].len() > 0 by {}
                lemma_count_update(pages, p, n - 1, 0);
            } else {
                let a = pages.drop_last();
                assert(pages[n - 1] =~= Seq::<(u128, Option<Seq<char>>)>::empty());
                assert(pages =~= a.push(Seq::empty()));
                assert(p =~= a.push(q));
                lemma_count_empty_last(a, 0);
                assert forall|j: int| 0 <= j < a.len() implies #[trigger] a[j].len() > 0 by {
                    assert(a[j] == pages[j]);
                }
                lemma_count_push(a, q, 0);
                assert(live_count(Seq::<(u128, Option<Seq<char>>)>::empty()) == 0);
            }
        } else {
            let q = seq![e];
            assert(p == pages.push(q));
            assert(q[0].0 == id);
            lemma_key_index(q, id);
            assert(has_live_key(p[n], id));
            assert forall|j: int| 0 <= j < n implies !has_live_key(#[trigger] p[j], id) && p[j].len() > 0 by {
                assert(p[j] == pages[j]);
            }
            lemma_get_page_at(p, id, 0, n);
            assert forall|j: int| 0 <= j < pages.len() implies #[trigger] pages[j].len() > 0 by {}
            lemma_count_push(pages, q, 0);
            assert(live_count(q) == 1) by {
                assert(q.drop_last() =~= Seq::<(u128, Option<Seq<char>>)>::empty());
                assert(live_count(q.drop_last()) == 0);
                assert(q.last() == e);
            }
        }
    }
}

proof fn lemma_key_page_facts(pages: Seq<PageView>, id: u128, i: int)
    requires
        0 <= i <= pages.len(),
    ensures
        i <= key_page_from(pages, id, i) <= pages.len(),
        key_page_from(pages, id, i) < pages.len() ==> has_key(pages[key_page_from(pages, id, i)], id),
        forall|j: int| i <= j < key_page_from(pages, id, i) ==> !has_key(#[trigger] pages[j], id),
    decreases pages.len() - i,
{
    if i < pages.len() && !has_key(pages[i], id) {
        lemma_key_page_facts(pages, id, i + 1);
    }
}

/// Updating a message in a chain of the page shape: when it succeeds, the
/// chain keeps its shape and the ids of each page, the message reads back
/// with its new content id, and the count is unchanged. No more than the
/// page shape is assumed.
pub proof fn law_update_then_get_in_shape(pages: Seq<PageView>, id: u128, cid: Seq<char>)
    requires
        page_shape(pages),
    ensures
        spec_update(pages, id, cid) matches Ok(p) ==> {
            &&& page_shape(p)
            &&& p.len() == pages.len()
            &&& forall|i: int, x: u128| 0 <= i < p.len() ==> (#[trigger] has_key(p[i], x) <==> has_key(pages[i], x))
            &&& spec_get(p, id) == Ok::<Seq<char>, Error>(cid)
            &&& count_from(p, 0) == count_from(pages, 0)
        },
{
    let n = pages.len() as int;
    lemma_key_page_facts(pages, id, 0);
    let m = key_page_from(pages, id, 0);
    if spec_update(pages, id, cid) is Ok {
        lemma_key_index(pages[m], id);
        let k = key_index(pages[m], id);
        let q = pages[m].update(k, (id, Some(cid)));
        let p = pages.update(m, q);
        lemma_update_same_key(pages[m], id, Some(cid));
        assert(spec_update(pages, id, cid) == Ok::<Seq<PageView>, Error>(p));
        assert forall|i: int| 0 <= i < p.len() implies #[trigger] p[i].len() <= REFERENCE_LENGTH + 1 && (i < p.len() - 1
            ==> p[i].len() > REFERENCE_LENGTH) by {
            assert(p[i].len() == pages[i].len());
        }
        assert forall|i: int, x: u128| 0 <= i < p.len() implies (#[trigger] has_key(p[i], x) <==> has_key(pages[i], x)) by {
            if i != m {
                assert(p[i] == pages[i]);
            }
        }
        assert forall|j: int| 0 <= j < m implies !has_live_key(#[trigger] p[j], id) && p[j].len() > 0 by {
            assert(p[j] == pages[j]);
            assert(pages[j].len() > REFERENCE_LENGTH) by {
                if j == n - 1 {
                    assert(m > n - 1);
                }
            }
        }
        assert(q[k] == (id, Some(cid)));
        assert(has_live_key(p[m], id));
        lemma_get_page_at(p, id, 0, m);
        lemma_live_update(pages[m], k, (id, Some(cid)));
        if pages[n - 1].len() > 0 {
            assert forall|j: int| 0 <= j < pages.len() implies #[trigger] pages[j].len() > 0 && p[j].len() > 0 by {
                assert(p[j].len() == pages[j].len());
            }
            lemma_count_update(pages, p, m, 0);
        } else {
            assert(m < n - 1);
            let a = pages.drop_last();
            let b = p.drop_last();
            assert(pages[n - 1] =~= Seq::<(u128, Option<Seq<char>>)>::empty());
            assert(pages =~= a.push(Seq::empty()));
            assert(p[n - 1] == pages[n - 1]);
            assert(p =~= b.push(Seq::empty()));
            lemma_count_empty_last(a, 0);
            lemma_count_empty_last(b, 0);
            assert forall|j: int| 0 <= j < a.len() implies #[trigger] a[j].len() > 0 && b[j].len() > 0 by {
                assert(a[j] == pages[j]);
                assert(b[j] == p[j]);
                assert(p[j].len() == pages[j].len());
            }
            assert forall|j: int| 0 <= j < a.len() && j != m implies a[j] == b[j] by {}
            lemma_count_update(a, b, m, 0);
        }
    }
}

proof fn lemma_remove_page_facts(pages: Seq<PageView>, id: u128, i: int)
    requires
        0 <= i <= pages.len(),
    ensures
        i <= remove_page_from(pages, id, i) <= pages.len(),
        remove_page_from(pages, id, i) < pages.len() ==> has_key(pages[remove_page_from(pages, id, i)], id)
            || pages[remove_page_from(pages, id, i)].len() == 0,
        forall|j: int| i <= j < remove_page_from(pages, id, i) ==> !has_key(#[trigger] pages[j], id),
    decreases pages.len() - i,
{
    if i < pages.len() && !(pages[i].len() == 0 || has_key(pages[i], id)) {
        lemma_remove_page_facts(pages, id, i + 1);
    }
}

proof fn lemma_get_none(pages: Seq<PageView>, id: u128, i: int)
    requires
        0 <= i <= pages.len(),
        forall|j: int| i <= j < pages.len() ==> !has_live_key(#[trigger] pages[j], id),
    ensures
        get_page_from(pages, id, i) == pages.len() || pages[get_page_from(pages, id, i)].len() == 0,
        i <= get_page_from(pages, id, i) <= pages.len(),
    decreases pages.len() - i,
{
    if i < pages.len() && pages[i].len() != 0 {
        lemma_get_none(pages, id, i + 1);
    }
}

/// Removing a message from a chain of the page shape: when it succeeds, the
/// entry stays as removed, so the chain keeps its shape and the ids of each
/// page, the count shrinks by one, and inserting the id again is refused
/// with `MessageFound`; when no other page holds the id, reading it fails.
/// No more than the page shape is assumed.
pub proof fn law_remove_in_shape(pages: Seq<PageView>, id: u128, cid: Seq<char>)
    requires
        page_shape(pages),
    ensures
        spec_remove(pages, id) matches Ok(p) ==> {
            &&& page_shape(p)
            &&& p.len() == pages.len()
            &&& forall|i: int, x: u128| 0 <= i < p.len() ==> (#[trigger] has_key(p[i], x) <==> has_key(pages[i], x))
            &&& count_from(p, 0) + 1 == count_from(pages, 0)
            &&& spec_insert(p, id, cid) == Err::<Seq<PageView>, Error>(Error::MessageFound)
            &&& (forall|i: int, j: int|
                0 <= i < j < pages.len() && #[trigger] has_key(pages[i], id) ==> !#[trigger] has_key(pages[j], id))
                ==> spec_get(p, id) == Err::<Seq<char>, Error>(Error::MessageNotFound)
        },
{
    let n = pages.len() as int;
    lemma_remove_page_facts(pages, id, 0);
    let m = remove_page_from(pages, id, 0);
    if spec_remove(pages, id) is Ok {
        assert(has_key(pages[m], id));
        lemma_key_index(pages[m], id);
        let k = key_index(pages[m], id);
        let q = pages[m].update(k, (id, None));
        let p = pages.update(m, q);
        lemma_update_same_key(pages[m], id, None);
        assert(spec_remove(pages, id) == Ok::<Seq<PageView>, Error>(p));
        assert forall|i: int| 0 <= i < p.len() implies #[trigger] p[i].len() <= REFERENCE_LENGTH + 1 && (i < p.len() - 1
            ==> p[i].len() > REFERENCE_LENGTH) by {
            assert(p[i].len() == pages[i].len());
        }
        assert forall|i: int, x: u128| 0 <= i < p.len() implies (#[trigger] has_key(p[i], x) <==> has_key(pages[i], x)) by {
            if i != m {
                assert(p[i] == pages[i]);
            }
        }
        // the count
        lemma_live_update(pages[m], k, (id, None));
        if pages[n - 1].len() > 0 {
            assert forall|j: int| 0 <= j < pages.len() implies #[trigger] pages[j].len() > 0 && p[j].len() > 0 by {
                assert(p[j].len() == pages[j].len());
            }
            lemma_count_update(pages, p, m, 0);
        } else {
            assert(m < n - 1);
            let a = pages.drop_last();
            let b = p.drop_last();
            assert(pages[n - 1] =~= Seq::<(u128, Option<Seq<char>>)>::empty());
            assert(pages =~= a.push(Seq::empty()));
            assert(p[n - 1] == pages[n - 1]);
            assert(p =~= b.push(Seq::empty()));
            lemma_count_empty_last(a, 0);
            lemma_count_empty_last(b, 0);
            assert forall|j: int| 0 <= j < a.len() implies #[trigger] a[j].len() > 0 && b[j].len() > 0 by {
                assert(a[j] == pages[j]);
                assert(b[j] == p[j]);
                assert(p[j].len() == pages[j].len());
                assert(pages[j].len() > REFERENCE_LENGTH);
            }
            assert forall|j: int| 0 <= j < a.len() && j != m implies a[j] == b[j] by {}
            lemma_count_update(a, b, m, 0);
        }
        // inserting it again
        assert(has_key(p[m], id));
        assert(chain_has(p, id));
        law_insert_then_get_in_shape(p, id, cid);
        // reading it
        if forall|i: int, j: int|
            0 <= i < j < pages.len() && #[trigger] has_key(pages[i], id) ==> !#[trigger] has_key(pages[j], id) {
            assert forall|j: int| 0 <= j < p.len() implies !has_live_key(#[trigger] p[j], id) by {
                if j == m {
                    assert(q[k].1 is None);
                } else if j < m {
                    assert(p[j] == pages[j]);
                } else {
                    assert(p[j] == pages[j]);
                    assert(has_key(pages[m], id));
                    assert(!has_key(pages[j], id));
                }
            }
            lemma_get_none(p, id, 0);
        }
    }
}

} // verus!
