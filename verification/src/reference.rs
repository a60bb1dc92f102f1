//! The message reference list of a conversation or channel: a chain of pages,
//! each an insertion-ordered map from a message id to the content id of the
//! message document (or to nothing once the message was removed). A page takes
//! new entries until it holds more than `REFERENCE_LENGTH` of them; then the
//! next page of the chain does.
//!
//! The chain is held here resolved, one page after the other; reading pages
//! from and writing them to the block store is the caller's part.
use crate::error::Error;
use crate::limits::REFERENCE_LENGTH;
use crate::page::{
    has_key, insert_entry, key_index, lemma_key_index, new_page, opt_view, page_contains_key, page_entries,
    page_entry, page_insert, page_len,
};
use indexmap::IndexMap;
use vstd::prelude::*;

verus! {

/// Inserting `entries` one after the other into `pages`: the chain it gives,
/// or the first error.
pub open spec fn insert_all(pages: Seq<PageView>, entries: Seq<(u128, Seq<char>)>) -> Result<Seq<PageView>, Error>
    decreases entries.len(),
{
    if entries.len() == 0 {
        Ok(pages)
    } else {
        match insert_all(pages, entries.drop_last()) {
            Ok(p) => spec_insert(p, entries.last().0, entries.last().1),
            Err(e) => Err(e),
        }
    }
}

/// The entries of one page, by view.
pub type PageView = Seq<(u128, Option<Seq<char>>)>;

/// Index of the page that takes a new entry for `id`, searching from page `i`:
/// the first page that already has `id` or still has room; past the end
/// when there is none.
pub open spec fn insert_slot_from(pages: Seq<PageView>, id: u128, i: int) -> int
    decreases pages.len() - i,
{
    if i < 0 || i >= pages.len() {
        pages.len() as int
    } else if has_key(pages[i], id) || pages[i].len() <= REFERENCE_LENGTH {
        i
    } else {
        insert_slot_from(pages, id, i + 1)
    }
}

/// What `insert` makes of the chain, or the error it gives.
pub open spec fn spec_insert(pages: Seq<PageView>, id: u128, cid: Seq<char>) -> Result<Seq<PageView>, Error> {
    let k = insert_slot_from(pages, id, 0);
    if k < pages.len() && has_key(pages[k], id) {
        Err(Error::MessageFound)
    } else if k < pages.len() {
        Ok(pages.update(k, pages[k].push((id, Some(cid)))))
    } else {
        Ok(pages.push(seq![(id, Some(cid))]))
    }
}

/// Index of the first page from `i` on that has the key `id`; past the end when none has.
pub open spec fn key_page_from(pages: Seq<PageView>, id: u128, i: int) -> int
    decreases pages.len() - i,
{
    if i < 0 || i >= pages.len() {
        pages.len() as int
    } else if has_key(pages[i], id) {
        i
    } else {
        key_page_from(pages, id, i + 1)
    }
}

/// What `update` makes of the chain, or the error it gives: the first page
/// that has `id` decides; a removed entry is not updated.
pub open spec fn spec_update(pages: Seq<PageView>, id: u128, cid: Seq<char>) -> Result<Seq<PageView>, Error> {
    let k = key_page_from(pages, id, 0);
    if k >= pages.len() {
        Err(Error::MessageNotFound)
    } else if pages[k][key_index(pages[k], id)].1 is None {
        Err(Error::MessageNotFound)
    } else {
        Ok(pages.update(k, pages[k].update(key_index(pages[k], id), (id, Some(cid)))))
    }
}

/// Index of the first page from `i` on that is empty or has `id`.
pub open spec fn remove_page_from(pages: Seq<PageView>, id: u128, i: int) -> int
    decreases pages.len() - i,
{
    if i < 0 || i >= pages.len() {
        pages.len() as int
    } else if pages[i].len() == 0 || has_key(pages[i], id) {
        i
    } else {
        remove_page_from(pages, id, i + 1)
    }
}

/// What `remove` makes of the chain, or the error it gives: the entry keeps
/// its key and loses its content id.
pub open spec fn spec_remove(pages: Seq<PageView>, id: u128) -> Result<Seq<PageView>, Error> {
    let k = remove_page_from(pages, id, 0);
    if k >= pages.len() || pages[k].len() == 0 {
        Err(Error::MessageNotFound)
    } else if pages[k][key_index(pages[k], id)].1 is None {
        Err(Error::MessageNotFound)
    } else {
        Ok(pages.update(k, pages[k].update(key_index(pages[k], id), (id, None))))
    }
}

/// Whether the entry for `id` in page `p` holds a content id.
pub open spec fn has_live_key(p: PageView, id: u128) -> bool {
    has_key(p, id) && p[key_index(p, id)].1 is Some
}

/// Index of the first page from `i` on that is empty or holds a content id for `id`.
pub open spec fn get_page_from(pages: Seq<PageView>, id: u128, i: int) -> int
    decreases pages.len() - i,
{
    if i < 0 || i >= pages.len() {
        pages.len() as int
    } else if pages[i].len() == 0 || has_live_key(pages[i], id) {
        i
    } else {
        get_page_from(pages, id, i + 1)
    }
}

/// What `get` answers: the content id of the message, found page by page; an
/// empty page ends the search.
pub open spec fn spec_get(pages: Seq<PageView>, id: u128) -> Result<Seq<char>, Error> {
    let k = get_page_from(pages, id, 0);
    if k >= pages.len() || pages[k].len() == 0 {
        Err(Error::MessageNotFound)
    } else {
        Ok(pages[k][key_index(pages[k], id)].1.unwrap())
    }
}

/// What `contains` answers: whether the first page holds a content id for `id`.
pub open spec fn spec_contains(pages: Seq<PageView>, id: u128) -> bool {
    pages.len() > 0 && has_live_key(pages[0], id)
}

/// Number of entries of a page that hold a content id.
pub open spec fn live_count(p: PageView) -> nat
    decreases p.len(),
{
    if p.len() == 0 {
        0
    } else {
        live_count(p.drop_last()) + if p.last().1 is Some { 1nat } else { 0nat }
    }
}

/// What `count` answers from page `i` on: live entries, page by page, up to
/// the first empty page.
pub open spec fn count_from(pages: Seq<PageView>, i: int) -> nat
    decreases pages.len() - i,
{
    if i < 0 || i >= pages.len() || pages[i].len() == 0 {
        0
    } else {
        live_count(pages[i]) + count_from(pages, i + 1)
    }
}

/// The entries of a page from position `j` on that `list` yields, in order:
/// those holding a content id; removed entries are skipped.
pub open spec fn live_entries(p: PageView, j: int) -> Seq<(u128, Seq<char>)>
    decreases p.len() - j,
{
    if j < 0 || j >= p.len() {
        Seq::empty()
    } else if p[j].1 is None {
        live_entries(p, j + 1)
    } else {
        seq![(p[j].0, p[j].1.unwrap())] + live_entries(p, j + 1)
    }
}

/// What `list` yields from page `i` on, in order.
pub open spec fn list_from(pages: Seq<PageView>, i: int) -> Seq<(u128, Seq<char>)>
    decreases pages.len() - i,
{
    if i < 0 || i >= pages.len() {
        Seq::empty()
    } else {
        live_entries(pages[i], 0) + list_from(pages, i + 1)
    }
}

pub open spec fn pages_view(pages: Seq<IndexMap<u128, Option<String>>>) -> Seq<PageView> {
    Seq::new(pages.len(), |i: int| page_entries(pages[i]))
}

/// A message reference list, its pages in chain order.
pub struct MessageReferenceList {
    pages: Vec<IndexMap<u128, Option<String>>>,
}

impl View for MessageReferenceList {
    type V = Seq<PageView>;

    closed spec fn view(&self) -> Seq<PageView> {
        pages_view(self.pages@)
    }
}

impl MessageReferenceList {
    /// An empty list: no page at all.
    pub fn new() -> (r: Self)
        ensures
            r@ == Seq::<PageView>::empty(),
    {
        let r = MessageReferenceList { pages: Vec::new() };
        assert(r@ =~= Seq::<PageView>::empty());
        r
    }

    /// Appends a page to the chain, made of `entries` inserted in order (a
    /// repeated id keeps its first place and takes the later content id).
    pub fn push_page(&mut self, entries: Vec<(u128, Option<String>)>)
        ensures
            final(self)@.len() == old(self)@.len() + 1,
            final(self)@.drop_last() == old(self)@,
            final(self)@.last() == fold_entries(entries@, entries@.len() as int),
    {
        let mut page = new_page();
        let mut i: usize = 0;
        while i < entries.len()
            invariant
                i <= entries.len(),
                page_entries(page) == fold_entries(entries@, i as int),
            decreases entries.len() - i,
        {
            let id = entries[i].0;
            let cid = clone_opt(&entries[i].1);
            page_insert(&mut page, id, cid);
            i += 1;
        }
        let ghost before = self@;
        self.pages.push(page);
        assert(self@.drop_last() =~= before);
    }

    /// The pages of the chain, each as its entries in order.
    pub fn pages(&self) -> (r: Vec<Vec<(u128, Option<String>)>>)
        ensures
            r@.len() == self@.len(),
            forall|i: int| 0 <= i < r@.len() ==> entries_view(#[trigger] r@[i]@) == self@[i],
    {
        let mut r: Vec<Vec<(u128, Option<String>)>> = Vec::new();
        let mut i: usize = 0;
        while i < self.pages.len()
            invariant
                i <= self.pages.len(),
                r@.len() == i,
                forall|k: int| 0 <= k < i ==> entries_view(#[trigger] r@[k]@) == self@[k],
            decreases self.pages.len() - i,
        {
            let page = &self.pages[i];
            let n = page_len(page);
            let mut v: Vec<(u128, Option<String>)> = Vec::new();
            let mut j: usize = 0;
            while j < n
                invariant
                    j <= n,
                    n == page_entries(*page).len(),
                    v@.len() == j,
                    forall|k: int| 0 <= k < j ==> (#[trigger] v@[k]).0 == page_entries(*page)[k].0
                        && opt_view(v@[k].1) == page_entries(*page)[k].1,
                decreases n - j,
            {
                v.push(page_entry(page, j));
                j += 1;
            }
            assert(entries_view(v@) =~= self@[i as int]);
            r.push(v);
            i += 1;
        }
        r
    }

    fn insert_slot(&self, id: u128) -> (k: usize)
        ensures
            k as int == insert_slot_from(self@, id, 0),
    {
        let mut i: usize = 0;
        while i < self.pages.len()
            invariant
                i <= self.pages.len(),
                insert_slot_from(self@, id, 0) == insert_slot_from(self@, id, i as int),
            decreases self.pages.len() - i,
        {
            if page_contains_key(&self.pages[i], id) || page_len(&self.pages[i]) <= REFERENCE_LENGTH {
                return i;
            }
            i += 1;
        }
        i
    }

    fn key_page(&self, id: u128) -> (k: usize)
        ensures
            k as int == key_page_from(self@, id, 0),
    {
        let mut i: usize = 0;
        while i < self.pages.len()
            invariant
                i <= self.pages.len(),
                key_page_from(self@, id, 0) == key_page_from(self@, id, i as int),
            decreases self.pages.len() - i,
        {
            if page_contains_key(&self.pages[i], id) {
                return i;
            }
            i += 1;
        }
        i
    }

    fn remove_page(&self, id: u128) -> (k: usize)
        ensures
            k as int == remove_page_from(self@, id, 0),
    {
        let mut i: usize = 0;
        while i < self.pages.len()
            invariant
                i <= self.pages.len(),
                remove_page_from(self@, id, 0) == remove_page_from(self@, id, i as int),
            decreases self.pages.len() - i,
        {
            if page_len(&self.pages[i]) == 0 || page_contains_key(&self.pages[i], id) {
                return i;
            }
            i += 1;
        }
        i
    }

    /// Adds the content id `cid` of message `id`. A page takes the entry
    /// unless it already has `id` (an error) or holds more than
    /// `REFERENCE_LENGTH` entries (the next page is tried, a new one made at
    /// the end of the chain).
    pub fn insert(&mut self, id: u128, cid: String) -> (r: Result<(), Error>)
        ensures
            match spec_insert(old(self)@, id, cid@) {
                Ok(p) => r is Ok && final(self)@ == p,
                Err(e) => r == Err::<(), Error>(e) && final(self)@ == old(self)@,
            },
    {
        let k = self.insert_slot(id);
        if k < self.pages.len() {
            if page_contains_key(&self.pages[k], id) {
                return Err(Error::MessageFound);
            }
            let ghost before = self@;
            proof {
                lemma_key_index(before[k as int], id);
            }
            page_insert(&mut self.pages[k], id, Some(cid));
            assert(self@ =~= before.update(k as int, before[k as int].push((id, Some(cid@)))));
            Ok(())
        } else {
            let ghost before = self@;
            let mut page = new_page();
            proof {
                lemma_key_index(page_entries(page), id);
            }
            page_insert(&mut page, id, Some(cid));
            assert(page_entries(page) =~= seq![(id, Some(cid@))]);
            self.pages.push(page);
            assert(self@ =~= before.push(seq![(id, Some(cid@))]));
            Ok(())
        }
    }

    /// Replaces the content id of message `id`, in the first page that has it.
    pub fn update(&mut self, id: u128, cid: String) -> (r: Result<(), Error>)
        ensures
            match spec_update(old(self)@, id, cid@) {
                Ok(p) => r is Ok && final(self)@ == p,
                Err(e) => r == Err::<(), Error>(e) && final(self)@ == old(self)@,
            },
    {
        let k = self.key_page(id);
        if k >= self.pages.len() {
            return Err(Error::MessageNotFound);
        }
        proof {
            lemma_key_page_from(self@, id, 0);
        }
        let ghost before = self@;
        let j = find_key(&self.pages[k], id);
        let (_, current) = page_entry(&self.pages[k], j);
        if current.is_none() {
            return Err(Error::MessageNotFound);
        }
        proof {
            lemma_key_index(before[k as int], id);
        }
        page_insert(&mut self.pages[k], id, Some(cid));
        assert(self@ =~= before.update(
            k as int,
            before[k as int].update(key_index(before[k as int], id), (id, Some(cid@))),
        ));
        Ok(())
    }

    /// Marks message `id` as removed: its entry keeps the key and loses the
    /// content id.
    pub fn remove(&mut self, id: u128) -> (r: Result<(), Error>)
        ensures
            match spec_remove(old(self)@, id) {
                Ok(p) => r is Ok && final(self)@ == p,
                Err(e) => r == Err::<(), Error>(e) && final(self)@ == old(self)@,
            },
    {
        let k = self.remove_page(id);
        if k >= self.pages.len() || page_len(&self.pages[k]) == 0 {
            return Err(Error::MessageNotFound);
        }
        proof {
            lemma_remove_page_from(self@, id, 0);
        }
        let ghost before = self@;
        let j = find_key(&self.pages[k], id);
        let (_, current) = page_entry(&self.pages[k], j);
        if current.is_none() {
            return Err(Error::MessageNotFound);
        }
        proof {
            lemma_key_index(before[k as int], id);
        }
        page_insert(&mut self.pages[k], id, None);
        assert(self@ =~= before.update(
            k as int,
            before[k as int].update(key_index(before[k as int], id), (id, None)),
        ));
        Ok(())
    }

    /// The content id of message `id`.
    pub fn get(&self, id: u128) -> (r: Result<String, Error>)
        ensures
            match spec_get(self@, id) {
                Ok(c) => r is Ok && r->Ok_0@ == c,
                Err(e) => r == Err::<String, Error>(e),
            },
    {
        let mut i: usize = 0;
        while i < self.pages.len()
            invariant
                i <= self.pages.len(),
                get_page_from(self@, id, 0) == get_page_from(self@, id, i as int),
            decreases self.pages.len() - i,
        {
            let page = &self.pages[i];
            if page_len(page) == 0 {
                return Err(Error::MessageNotFound);
            }
            if page_contains_key(page, id) {
                let j = find_key(page, id);
                let (_, value) = page_entry(page, j);
                proof {
                    lemma_key_index(self@[i as int], id);
                }
                match value {
                    Some(c) => {
                        return Ok(c);
                    },
                    None => {},
                }
            }
            i += 1;
        }
        Err(Error::MessageNotFound)
    }

    /// Whether the first page holds a content id for message `id`.
    pub fn contains(&self, id: u128) -> (b: bool)
        ensures
            b == spec_contains(self@, id),
    {
        if self.pages.len() == 0 {
            return false;
        }
        let page = &self.pages[0];
        if !page_contains_key(page, id) {
            return false;
        }
        let j = find_key(page, id);
        let (_, value) = page_entry(page, j);
        proof {
            lemma_key_index(self@[0], id);
        }
        value.is_some()
    }

    /// The number of messages: live entries, page by page, up to the first
    /// empty page.
    pub fn count(&self) -> (n: usize)
        requires
            count_from(self@, 0) <= usize::MAX,
        ensures
            n == count_from(self@, 0),
    {
        let mut i: usize = 0;
        let mut total: usize = 0;
        while i < self.pages.len()
            invariant
                i <= self.pages.len(),
                total + count_from(self@, i as int) == count_from(self@, 0),
                count_from(self@, 0) <= usize::MAX,
            decreases self.pages.len() - i,
        {
            if page_len(&self.pages[i]) == 0 {
                return total;
            }
            let c = page_live_count(&self.pages[i]);
            total = total + c;
            i += 1;
        }
        total
    }

    /// The list rebuilt from the entries it lists, inserted in order into an
    /// empty list: pages are filled up again and the removed entries go.
    pub fn shrink(&self) -> (r: Result<MessageReferenceList, Error>)
        ensures
            match insert_all(Seq::empty(), list_from(self@, 0)) {
                Ok(p) => r matches Ok(l) && l@ == p,
                Err(e) => r matches Err(x) && x == e,
            },
    {
        let entries = self.list();
        let ghost ev = live_view(entries@);
        let mut out = MessageReferenceList::new();
        let mut i: usize = 0;
        while i < entries.len()
            invariant
                i <= entries@.len(),
                ev == live_view(entries@),
                ev == list_from(self@, 0),
                insert_all(Seq::empty(), ev.subrange(0, i as int)) == Ok::<Seq<PageView>, Error>(out@),
            decreases entries@.len() - i,
        {
            proof {
                assert(ev.subrange(0, i + 1).drop_last() =~= ev.subrange(0, i as int));
                assert(ev[i as int] == (entries@[i as int].0, entries@[i as int].1@));
            }
            let id = entries[i].0;
            let cid = entries[i].1.clone();
            match out.insert(id, cid) {
                Ok(()) => {},
                Err(e) => {
                    proof {
                        lemma_insert_all_err(Seq::empty(), ev, i as int + 1, e);
                        assert(ev.subrange(0, ev.len() as int) =~= ev);
                    }
                    return Err(e);
                },
            }
            i += 1;
        }
        assert(ev.subrange(0, ev.len() as int) =~= ev);
        Ok(out)
    }

    /// Message ids and content ids in the order the list is walked: page by
    /// page, every entry that holds a content id (removed ones are skipped).
    pub fn list(&self) -> (r: Vec<(u128, String)>)
        ensures
            live_view(r@) == list_from(self@, 0),
    {
        let mut r: Vec<(u128, String)> = Vec::new();
        let mut i: usize = 0;
        while i < self.pages.len()
            invariant
                i <= self.pages.len(),
                live_view(r@) + list_from(self@, i as int) == list_from(self@, 0),
            decreases self.pages.len() - i,
        {
            let ghost r0 = r@;
            let page = &self.pages[i];
            let n = page_len(page);
            let mut j: usize = 0;
            while j < n
                invariant
                    j <= n,
                    n == page_entries(*page).len(),
                    page_entries(*page) == self@[i as int],
                    live_view(r@) + live_entries(self@[i as int], j as int) == live_view(r0) + live_entries(self@[i as int], 0),
                decreases n - j,
            {
                let (id, value) = page_entry(page, j);
                match value {
                    Some(c) => {
                        let ghost rb = r@;
                        r.push((id, c));
                        assert(live_view(r@) =~= live_view(rb).push((id, c@)));
                        assert(live_entries(self@[i as int], j as int) =~= seq![(id, c@)] + live_entries(self@[i as int], j + 1));
                        assert(live_view(r@) + live_entries(self@[i as int], j + 1) =~= live_view(rb) + live_entries(self@[i as int], j as int));
                        j += 1;
                    },
                    None => {
                        assert(live_entries(self@[i as int], j as int) == live_entries(self@[i as int], j + 1));
                        j += 1;
                    },
                }
            }
            assert(live_entries(self@[i as int], n as int) =~= Seq::<(u128, Seq<char>)>::empty());
            assert(list_from(self@, i as int) == live_entries(self@[i as int], 0) + list_from(self@, i + 1));
            assert(live_view(r@) + list_from(self@, i + 1) =~= live_view(r0) + list_from(self@, i as int));
            i += 1;
        }
        assert(list_from(self@, i as int) =~= Seq::<(u128, Seq<char>)>::empty());
        assert(live_view(r@) =~= live_view(r@) + list_from(self@, i as int));
        r
    }
}

proof fn lemma_key_page_from(pages: Seq<PageView>, id: u128, i: int)
    requires
        0 <= i,
    ensures
        i <= key_page_from(pages, id, i) <= pages.len() || i > pages.len(),
        key_page_from(pages, id, i) < pages.len() ==> has_key(pages[key_page_from(pages, id, i)], id),
        forall|j: int| i <= j < key_page_from(pages, id, i) && j < pages.len() ==> !has_key(#[trigger] pages[j], id),
    decreases pages.len() - i,
{
    if i < pages.len() && !has_key(pages[i], id) {
        lemma_key_page_from(pages, id, i + 1);
    }
}

proof fn lemma_remove_page_from(pages: Seq<PageView>, id: u128, i: int)
    requires
        0 <= i,
    ensures
        i <= remove_page_from(pages, id, i) <= pages.len() || i > pages.len(),
        remove_page_from(pages, id, i) < pages.len() ==> pages[remove_page_from(pages, id, i)].len() == 0
            || has_key(pages[remove_page_from(pages, id, i)], id),
        forall|j: int| i <= j < remove_page_from(pages, id, i) && j < pages.len() ==> !has_key(#[trigger] pages[j], id)
            && pages[j].len() > 0,
    decreases pages.len() - i,
{
    if i < pages.len() && !(pages[i].len() == 0 || has_key(pages[i], id)) {
        lemma_remove_page_from(pages, id, i + 1);
    }
}

proof fn lemma_insert_all_err(pages: Seq<PageView>, entries: Seq<(u128, Seq<char>)>, n: int, e: Error)
    requires
        0 <= n <= entries.len(),
        insert_all(pages, entries.subrange(0, n)) == Err::<Seq<PageView>, Error>(e),
    ensures
        insert_all(pages, entries) == Err::<Seq<PageView>, Error>(e),
    decreases entries.len() - n,
{
    if n < entries.len() {
        assert(entries.subrange(0, n + 1).drop_last() =~= entries.subrange(0, n));
        lemma_insert_all_err(pages, entries, n + 1, e);
    } else {
        assert(entries.subrange(0, n) =~= entries);
    }
}

/// The view of listed entries.
pub open spec fn live_view(s: Seq<(u128, String)>) -> Seq<(u128, Seq<char>)> {
    Seq::new(s.len(), |i: int| (s[i].0, s[i].1@))
}

/// The view of page entries given as a vector.
pub open spec fn entries_view(s: Seq<(u128, Option<String>)>) -> PageView {
    Seq::new(s.len(), |i: int| (s[i].0, opt_view(s[i].1)))
}

/// The page made by inserting the first `n` entries in order.
pub open spec fn fold_entries(s: Seq<(u128, Option<String>)>, n: int) -> PageView
    decreases n,
{
    if n <= 0 || n > s.len() {
        Seq::empty()
    } else {
        insert_entry(fold_entries(s, n - 1), s[n - 1].0, opt_view(s[n - 1].1))
    }
}

fn clone_opt(o: &Option<String>) -> (r: Option<String>)
    ensures
        opt_view(r) == opt_view(*o),
{
    match o {
        Some(s) => Some(s.clone()),
        None => None,
    }
}

/// Position of the first entry with key `id`.
fn find_key(page: &IndexMap<u128, Option<String>>, id: u128) -> (j: usize)
    requires
        has_key(page_entries(*page), id),
    ensures
        j as int == key_index(page_entries(*page), id),
        j < page_entries(*page).len(),
{
    proof {
        lemma_key_index(page_entries(*page), id);
    }
    let n = page_len(page);
    let mut j: usize = 0;
    while j < n
        invariant
            j <= n,
            n == page_entries(*page).len(),
            key_index(page_entries(*page), id) >= j,
            key_index(page_entries(*page), id) < page_entries(*page).len(),
            page_entries(*page)[key_index(page_entries(*page), id)].0 == id,
            forall|k: int| 0 <= k < key_index(page_entries(*page), id) ==> page_entries(*page)[k].0 != id,
        decreases n - j,
    {
        let (k, _) = page_entry(page, j);
        if k == id {
            return j;
        }
        j += 1;
    }
    j
}

/// Live entries of a page.
fn page_live_count(page: &IndexMap<u128, Option<String>>) -> (n: usize)
    ensures
        n == live_count(page_entries(*page)),
{
    let len = page_len(page);
    let mut j: usize = 0;
    let mut n: usize = 0;
    while j < len
        invariant
            j <= len,
            len == page_entries(*page).len(),
            n == live_count(page_entries(*page).subrange(0, j as int)),
            n <= j,
        decreases len - j,
    {
        let (_, value) = page_entry(page, j);
        let ghost p = page_entries(*page);
        assert(p.subrange(0, j + 1).drop_last() =~= p.subrange(0, j as int));
        if value.is_some() {
            n += 1;
        }
        j += 1;
    }
    assert(page_entries(*page).subrange(0, len as int) =~= page_entries(*page));
    n
}

} // verus!
