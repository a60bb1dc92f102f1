//! The identity cache: the latest valid document of each identity seen,
//! keyed by DID. A document is only taken when it checks out, and an
//! identity's document is only replaced by one that shows a change.
use crate::error::Error;
use crate::identity::{
    checked, did_well_formed, reaches_check, same_identity, shows_change, verify_outcome, IdentityDocument,
    IdentityDocumentView,
};
use vstd::prelude::*;

verus! {

/// No DID occurs twice.
pub open spec fn dids_distinct(s: Seq<IdentityDocumentView>) -> bool {
    forall|i: int, j: int| 0 <= i < j < s.len() ==> s[i].did != s[j].did
}

/// Some document of `s` has the DID `k`.
pub open spec fn has_did(s: Seq<IdentityDocumentView>, k: Seq<char>) -> bool {
    exists|i: int| 0 <= i < s.len() && #[trigger] s[i].did == k
}

/// The documents of `s` keyed by DID.
pub open spec fn docs_map(s: Seq<IdentityDocumentView>) -> Map<Seq<char>, IdentityDocumentView> {
    Map::new(
        |k: Seq<char>| has_did(s, k),
        |k: Seq<char>| s[choose|i: int| 0 <= i < s.len() && #[trigger] s[i].did == k],
    )
}

proof fn lemma_map_at(s: Seq<IdentityDocumentView>, j: int)
    requires
        dids_distinct(s),
        0 <= j < s.len(),
    ensures
        docs_map(s).contains_key(s[j].did),
        docs_map(s)[s[j].did] == s[j],
{
    let k = s[j].did;
    assert(has_did(s, k));
    let i = choose|i: int| 0 <= i < s.len() && #[trigger] s[i].did == k;
    assert(i == j);
}

proof fn lemma_map_absent(s: Seq<IdentityDocumentView>, k: Seq<char>)
    requires
        forall|i: int| 0 <= i < s.len() ==> s[i].did != k,
    ensures
        !docs_map(s).contains_key(k),
{
}

proof fn lemma_map_update(s: Seq<IdentityDocumentView>, j: int, d: IdentityDocumentView)
    requires
        dids_distinct(s),
        0 <= j < s.len(),
        s[j].did == d.did,
    ensures
        dids_distinct(s.update(j, d)),
        docs_map(s.update(j, d)) =~= docs_map(s).insert(d.did, d),
{
    let t = s.update(j, d);
    assert forall|a: int, b: int| 0 <= a < b < t.len() implies t[a].did != t[b].did by {
        assert(t[a].did == s[a].did);
        assert(t[b].did == s[b].did);
    }
    assert forall|k: Seq<char>| #[trigger] has_did(t, k) == docs_map(s).insert(d.did, d).contains_key(k) by {
        if has_did(t, k) {
            let i = choose|i: int| 0 <= i < t.len() && #[trigger] t[i].did == k;
            assert(s[i].did == k);
        }
        if has_did(s, k) {
            let i = choose|i: int| 0 <= i < s.len() && #[trigger] s[i].did == k;
            assert(t[i].did == k);
        }
        if k == d.did {
            assert(t[j].did == k);
        }
    }
    assert forall|k: Seq<char>| has_did(t, k) implies #[trigger] docs_map(t)[k] == docs_map(s).insert(d.did, d)[k] by {
        let i = choose|i: int| 0 <= i < t.len() && #[trigger] t[i].did == k;
        if k == d.did {
            assert(i == j);
        } else {
            assert(t[i] == s[i]);
            lemma_map_at(s, i);
        }
    }
}

proof fn lemma_map_push(s: Seq<IdentityDocumentView>, d: IdentityDocumentView)
    requires
        dids_distinct(s),
        !has_did(s, d.did),
    ensures
        dids_distinct(s.push(d)),
        docs_map(s.push(d)) =~= docs_map(s).insert(d.did, d),
{
    let t = s.push(d);
    assert forall|a: int, b: int| 0 <= a < b < t.len() implies t[a].did != t[b].did by {
        if b == s.len() {
            assert(t[a] == s[a]);
        } else {
            assert(t[a] == s[a]);
            assert(t[b] == s[b]);
        }
    }
    assert forall|k: Seq<char>| #[trigger] has_did(t, k) == docs_map(s).insert(d.did, d).contains_key(k) by {
        if has_did(t, k) {
            let i = choose|i: int| 0 <= i < t.len() && #[trigger] t[i].did == k;
            if i < s.len() {
                assert(s[i].did == k);
            }
        }
        if has_did(s, k) {
            let i = choose|i: int| 0 <= i < s.len() && #[trigger] s[i].did == k;
            assert(t[i].did == k);
        }
        if k == d.did {
            assert(t[s.len() as int].did == k);
        }
    }
    assert forall|k: Seq<char>| has_did(t, k) implies #[trigger] docs_map(t)[k] == docs_map(s).insert(d.did, d)[k] by {
        let i = choose|i: int| 0 <= i < t.len() && #[trigger] t[i].did == k;
        if k == d.did {
            if i < s.len() {
                assert(s[i].did == d.did);
            }
        } else {
            assert(t[i] == s[i]);
            lemma_map_at(s, i);
        }
    }
}

proof fn lemma_map_remove(s: Seq<IdentityDocumentView>, j: int)
    requires
        dids_distinct(s),
        0 <= j < s.len(),
    ensures
        dids_distinct(s.remove(j)),
        docs_map(s.remove(j)) =~= docs_map(s).remove(s[j].did),
{
    let t = s.remove(j);
    let kj = s[j].did;
    assert forall|a: int, b: int| 0 <= a < b < t.len() implies t[a].did != t[b].did by {
        let a0 = if a < j { a } else { a + 1 };
        let b0 = if b < j { b } else { b + 1 };
        assert(t[a] == s[a0]);
        assert(t[b] == s[b0]);
    }
    assert forall|k: Seq<char>| #[trigger] has_did(t, k) == docs_map(s).remove(kj).contains_key(k) by {
        if has_did(t, k) {
            let i = choose|i: int| 0 <= i < t.len() && #[trigger] t[i].did == k;
            let i0 = if i < j { i } else { i + 1 };
            assert(s[i0].did == k);
            assert(i0 != j);
        }
        if has_did(s, k) && k != kj {
            let i = choose|i: int| 0 <= i < s.len() && #[trigger] s[i].did == k;
            assert(i != j);
            let i1 = if i < j { i } else { i - 1 };
            assert(t[i1].did == k);
        }
    }
    assert forall|k: Seq<char>| has_did(t, k) implies #[trigger] docs_map(t)[k] == docs_map(s).remove(kj)[k] by {
        let i = choose|i: int| 0 <= i < t.len() && #[trigger] t[i].did == k;
        let i0 = if i < j { i } else { i + 1 };
        assert(t[i] == s[i0]);
        lemma_map_at(s, i0);
    }
}

/// Checking `d` may fail.
pub open spec fn fails<G: Fn(&IdentityDocument, &Vec<u8>) -> bool>(check: G, d: IdentityDocumentView) -> bool {
    exists|e: Error| verify_outcome(check, d, Err(e))
}

pub open spec fn docs_view(s: Seq<IdentityDocument>) -> Seq<IdentityDocumentView> {
    s.map_values(|d: IdentityDocument| d@)
}

/// What taking `doc` into the cache `before` may give: it must check out.
/// When the cache holds a document of the same DID, it is replaced only if
/// the new one shows a change, and then the old one is returned; a new
/// identity is added.
pub open spec fn inserted<G: Fn(&IdentityDocument, &Vec<u8>) -> bool>(
    check: G,
    before: Map<Seq<char>, IdentityDocumentView>,
    doc: IdentityDocumentView,
    after: Map<Seq<char>, IdentityDocumentView>,
    r: Result<Option<IdentityDocument>, Error>,
) -> bool {
    &&& r matches Err(e) ==> after == before && verify_outcome(check, doc, Err(e))
    &&& r is Ok ==> verify_outcome(check, doc, Ok(()))
    &&& r is Ok && !before.contains_key(doc.did) ==> (r matches Ok(None)) && after == before.insert(doc.did, doc)
    &&& r matches Ok(Some(o)) ==> before.contains_key(doc.did) && o@ == before[doc.did] && same_identity(o@, doc)
        && shows_change(o@, doc) && after == before.insert(doc.did, doc)
    &&& (r matches Ok(None)) && before.contains_key(doc.did) ==> after == before && (!same_identity(
        before[doc.did],
        doc,
    ) || !shows_change(before[doc.did], doc) || checked(check, doc, false))
}

/// What reading the document of `did` from the cache `m` may give: the
/// document, when it still checks out.
pub open spec fn got<G: Fn(&IdentityDocument, &Vec<u8>) -> bool>(
    check: G,
    m: Map<Seq<char>, IdentityDocumentView>,
    did: Seq<char>,
    r: Result<IdentityDocument, Error>,
) -> bool {
    &&& !m.contains_key(did) ==> r == Err::<IdentityDocument, Error>(Error::IdentityDoesntExist)
    &&& m.contains_key(did) ==> match r {
        Ok(d) => d@ == m[did] && verify_outcome(check, d@, Ok(())),
        Err(e) => verify_outcome(check, m[did], Err(e)),
    }
}

/// What forgetting `did` does to the cache `before`: an unknown DID is an
/// error and changes nothing; a known one is dropped.
pub open spec fn removed(
    before: Map<Seq<char>, IdentityDocumentView>,
    did: Seq<char>,
    after: Map<Seq<char>, IdentityDocumentView>,
    r: Result<(), Error>,
) -> bool {
    &&& !before.contains_key(did) ==> r == Err::<(), Error>(Error::IdentityDoesntExist) && after == before
    &&& before.contains_key(did) ==> r is Ok && after == before.remove(did)
}

/// A document the cache takes in, as new or as a change, can be read back:
/// right after, its DID holds it, and reading it gives it whenever it still
/// checks out.
pub proof fn law_insert_then_get<G: Fn(&IdentityDocument, &Vec<u8>) -> bool>(
    check: G,
    before: Map<Seq<char>, IdentityDocumentView>,
    doc: IdentityDocumentView,
    after: Map<Seq<char>, IdentityDocumentView>,
    r: Result<Option<IdentityDocument>, Error>,
    g: Result<IdentityDocument, Error>,
)
    requires
        inserted(check, before, doc, after, r),
        r is Ok,
        !before.contains_key(doc.did) || r matches Ok(Some(_)),
        got(check, after, doc.did, g),
    ensures
        after.contains_key(doc.did),
        after[doc.did] == doc,
        g matches Ok(d) ==> d@ == doc,
        g matches Err(e) ==> verify_outcome(check, doc, Err(e)),
{
}

/// Taking in a document the cache already holds changes nothing: the
/// cache stays as it was, and no older document is handed back.
pub proof fn law_insert_twice<G: Fn(&IdentityDocument, &Vec<u8>) -> bool>(
    check: G,
    before: Map<Seq<char>, IdentityDocumentView>,
    doc: IdentityDocumentView,
    after: Map<Seq<char>, IdentityDocumentView>,
    r: Result<Option<IdentityDocument>, Error>,
)
    requires
        before.contains_key(doc.did),
        before[doc.did] == doc,
        inserted(check, before, doc, after, r),
    ensures
        after == before,
        r is Ok ==> r matches Ok(None),
{
}

/// A newer document of a cached identity whose metadata differs (or its
/// username or status message) replaces the cached one when the cache takes
/// it and the check accepts its signature: the older document is handed
/// back and the DID holds the newer one.
pub proof fn law_changed_document_replaces<G: Fn(&IdentityDocument, &Vec<u8>) -> bool>(
    check: G,
    before: Map<Seq<char>, IdentityDocumentView>,
    doc: IdentityDocumentView,
    after: Map<Seq<char>, IdentityDocumentView>,
    r: Result<Option<IdentityDocument>, Error>,
)
    requires
        inserted(check, before, doc, after, r),
        r is Ok,
        before.contains_key(doc.did),
        before[doc.did].short_id == doc.short_id,
        before[doc.did].did == doc.did,
        before[doc.did].metadata != doc.metadata || before[doc.did].username != doc.username
            || before[doc.did].status_message != doc.status_message,
        !checked(check, doc, false),
    ensures
        r matches Ok(Some(o)) && o@ == before[doc.did],
        after.contains_key(doc.did),
        after[doc.did] == doc,
{
}

/// Once a DID is forgotten, reading it fails as unknown, whether or not it
/// was known before.
pub proof fn law_remove_then_get<G: Fn(&IdentityDocument, &Vec<u8>) -> bool>(
    check: G,
    before: Map<Seq<char>, IdentityDocumentView>,
    did: Seq<char>,
    after: Map<Seq<char>, IdentityDocumentView>,
    r: Result<(), Error>,
    g: Result<IdentityDocument, Error>,
)
    requires
        removed(before, did, after, r),
        got(check, after, did, g),
    ensures
        g == Err::<IdentityDocument, Error>(Error::IdentityDoesntExist),
{
}

/// The cache of identity documents.
pub struct IdentityCache {
    docs: Vec<IdentityDocument>,
}

impl View for IdentityCache {
    type V = Map<Seq<char>, IdentityDocumentView>;

    closed spec fn view(&self) -> Map<Seq<char>, IdentityDocumentView> {
        docs_map(docs_view(self.docs@))
    }
}

impl IdentityCache {
    /// No DID occurs twice, and every DID is well formed.
    pub closed spec fn inv(&self) -> bool {
        &&& dids_distinct(docs_view(self.docs@))
        &&& forall|i: int| 0 <= i < self.docs@.len() ==> did_well_formed(#[trigger] self.docs@[i].did@)
    }

    /// Every document held has a well-formed DID.
    pub proof fn law_cached_dids_well_formed(&self)
        requires
            self.inv(),
        ensures
            forall|k: Seq<char>| #[trigger] self@.contains_key(k) ==> did_well_formed(k) && self@[k].did == k,
    {
        assert forall|k: Seq<char>| #[trigger] self@.contains_key(k) implies did_well_formed(k) && self@[k].did
            == k by {
            let s = docs_view(self.docs@);
            let i = choose|i: int| 0 <= i < s.len() && #[trigger] s[i].did == k;
            assert(s[i] == self.docs@[i]@);
            lemma_map_at(s, i);
        }
    }

    /// An empty cache.
    pub fn new() -> (r: Self)
        ensures
            r.inv(),
            r@ == Map::<Seq<char>, IdentityDocumentView>::empty(),
    {
        let r = IdentityCache { docs: Vec::new() };
        assert(r@ =~= Map::<Seq<char>, IdentityDocumentView>::empty());
        r
    }

    fn find(&self, did: &String) -> (r: Option<usize>)
        requires
            self.inv(),
        ensures
            match r {
                Some(i) => i < self.docs@.len() && self.docs@[i as int].did@ == did@,
                None => forall|i: int| 0 <= i < self.docs@.len() ==> self.docs@[i].did@ != did@,
            },
    {
        let mut i: usize = 0;
        while i < self.docs.len()
            invariant
                i <= self.docs@.len(),
                forall|k: int| 0 <= k < i ==> self.docs@[k].did@ != did@,
            decreases self.docs@.len() - i,
        {
            if self.docs[i].did == *did {
                return Some(i);
            }
            i += 1;
        }
        None
    }

    proof fn lemma_find(&self, did: Seq<char>, r: Option<usize>)
        requires
            self.inv(),
            match r {
                Some(i) => i < self.docs@.len() && self.docs@[i as int].did@ == did,
                None => forall|i: int| 0 <= i < self.docs@.len() ==> self.docs@[i].did@ != did,
            },
        ensures
            match r {
                Some(i) => self@.contains_key(did) && self@[did] == self.docs@[i as int]@,
                None => !self@.contains_key(did),
            },
    {
        let s = docs_view(self.docs@);
        match r {
            Some(i) => {
                lemma_map_at(s, i as int);
            },
            None => {
                assert forall|i: int| 0 <= i < s.len() implies s[i].did != did by {
                    assert(s[i] == self.docs@[i]@);
                }
                lemma_map_absent(s, did);
            },
        }
    }

    /// Takes a document: it must check out. When the cache holds a document
    /// of the same DID, it is replaced only if the new one shows a change,
    /// and then the old one is returned; a new identity is added.
    pub fn insert<G: Fn(&IdentityDocument, &Vec<u8>) -> bool>(&mut self, document: &IdentityDocument, check: &G) -> (r:
        Result<Option<IdentityDocument>, Error>)
        requires
            old(self).inv(),
            did_well_formed(document.did@),
            forall|p: &IdentityDocument, s: &Vec<u8>| call_requires(*check, (p, s)),
        ensures
            final(self).inv(),
            inserted(*check, old(self)@, document@, final(self)@, r),
    {
        let v = document.verify(check);
        if let Err(e) = v {
            return Err(e);
        }
        let found = self.find(&document.did);
        proof {
            self.lemma_find(document.did@, found);
        }
        match found {
            Some(i) => {
                if !self.docs[i].different(document, check) {
                    return Ok(None);
                }
                let ghost s = docs_view(self.docs@);
                let old_doc = self.docs[i].copy();
                self.docs.set(i, document.copy());
                proof {
                    assert(docs_view(self.docs@) =~= s.update(i as int, document@));
                    lemma_map_update(s, i as int, document@);
                }
                Ok(Some(old_doc))
            },
            None => {
                let ghost s = docs_view(self.docs@);
                proof {
                    if has_did(s, document@.did) {
                        let j = choose|j: int| 0 <= j < s.len() && #[trigger] s[j].did == document@.did;
                        assert(s[j] == self.docs@[j]@);
                    }
                }
                self.docs.push(document.copy());
                proof {
                    assert(docs_view(self.docs@) =~= s.push(document@));
                    lemma_map_push(s, document@);
                }
                Ok(None)
            },
        }
    }

    /// The document of a DID, if it still checks out.
    pub fn get<G: Fn(&IdentityDocument, &Vec<u8>) -> bool>(&self, did: &String, check: &G) -> (r: Result<
        IdentityDocument,
        Error,
    >)
        requires
            self.inv(),
            forall|p: &IdentityDocument, s: &Vec<u8>| call_requires(*check, (p, s)),
        ensures
            got(*check, self@, did@, r),
    {
        let found = self.find(did);
        proof {
            self.lemma_find(did@, found);
        }
        match found {
            None => Err(Error::IdentityDoesntExist),
            Some(i) => {
                proof {
                    assert(did_well_formed(self.docs@[i as int].did@));
                }
                match self.docs[i].verify(check) {
                    Ok(()) => Ok(self.docs[i].copy()),
                    Err(e) => Err(e),
                }
            },
        }
    }

    /// Forgets the document of a DID.
    pub fn remove(&mut self, did: &String) -> (r: Result<(), Error>)
        requires
            old(self).inv(),
        ensures
            final(self).inv(),
            removed(old(self)@, did@, final(self)@, r),
    {
        let found = self.find(did);
        proof {
            self.lemma_find(did@, found);
        }
        match found {
            None => Err(Error::IdentityDoesntExist),
            Some(i) => {
                let ghost s = docs_view(self.docs@);
                let ghost before = self.docs@;
                self.docs.remove(i);
                proof {
                    assert(docs_view(self.docs@) =~= s.remove(i as int));
                    lemma_map_remove(s, i as int);
                    assert forall|k: int| 0 <= k < self.docs@.len() implies did_well_formed(
                        #[trigger] self.docs@[k].did@,
                    ) by {
                        let k0 = if k < i { k } else { k + 1 };
                        assert(self.docs@[k] == before[k0]);
                    }
                }
                Ok(())
            },
        }
    }

    /// The documents held that still check out, each once.
    pub fn list<G: Fn(&IdentityDocument, &Vec<u8>) -> bool>(&self, check: &G) -> (r: Vec<IdentityDocument>)
        requires
            self.inv(),
            forall|p: &IdentityDocument, s: &Vec<u8>| call_requires(*check, (p, s)),
        ensures
            dids_distinct(docs_view(r@)),
            forall|i: int|
                0 <= i < r@.len() ==> self@.contains_key(#[trigger] r@[i].did@) && self@[r@[i].did@] == r@[i]@
                    && verify_outcome(*check, r@[i]@, Ok(())),
            forall|k: Seq<char>| #[trigger] self@.contains_key(k) ==> has_did(docs_view(r@), k) || fails(*check, self@[k]),
    {
        let ghost s = docs_view(self.docs@);
        let mut out: Vec<IdentityDocument> = Vec::new();
        let ghost mut picked: Seq<int> = Seq::empty();
        let mut i: usize = 0;
        while i < self.docs.len()
            invariant
                self.inv(),
                s == docs_view(self.docs@),
                i <= self.docs@.len(),
                forall|p: &IdentityDocument, t: &Vec<u8>| call_requires(*check, (p, t)),
                picked.len() == out@.len(),
                forall|a: int|
                    0 <= a < picked.len() ==> 0 <= #[trigger] picked[a] < i && out@[a]@ == s[picked[a]]
                        && verify_outcome(*check, s[picked[a]], Ok(())),
                forall|a: int, b: int| 0 <= a < b < picked.len() ==> picked[a] < picked[b],
                forall|j: int| 0 <= j < i ==> picked.contains(j) || fails(*check, #[trigger] s[j]),
            decreases self.docs@.len() - i,
        {
            proof {
                assert(s[i as int] == self.docs@[i as int]@);
                assert(did_well_formed(self.docs@[i as int].did@));
            }
            let v = self.docs[i].verify(check);
            if v.is_ok() {
                out.push(self.docs[i].copy());
                proof {
                    let before = picked;
                    picked = picked.push(i as int);
                    assert(picked[picked.len() - 1] == i);
                    assert forall|j: int| 0 <= j < i + 1 implies picked.contains(j) || fails(*check, #[trigger] s[j]) by {
                        if j < i {
                            if before.contains(j) {
                                let a = choose|a: int| 0 <= a < before.len() && before[a] == j;
                                assert(picked[a] == j);
                            }
                        } else {
                            assert(picked[picked.len() - 1] == j);
                        }
                    }
                }
            } else {
                proof {
                    let e = v->Err_0;
                    assert(verify_outcome(*check, s[i as int], Err(e)));
                    assert(fails(*check, s[i as int]));
                }
            }
            i += 1;
        }
        proof {
            let rv = docs_view(out@);
            assert forall|a: int, b: int| 0 <= a < b < rv.len() implies rv[a].did != rv[b].did by {
                assert(picked[a] < picked[b]);
                assert(rv[a] == s[picked[a]]);
                assert(rv[b] == s[picked[b]]);
            }
            assert forall|a: int| 0 <= a < out@.len() implies self@.contains_key(#[trigger] out@[a].did@)
                && self@[out@[a].did@] == out@[a]@ && verify_outcome(*check, out@[a]@, Ok(())) by {
                assert(0 <= picked[a] < i);
                lemma_map_at(s, picked[a]);
            }
            assert forall|k: Seq<char>| #[trigger] self@.contains_key(k) implies has_did(docs_view(out@), k)
                || fails(*check, self@[k]) by {
                let j = choose|j: int| 0 <= j < s.len() && #[trigger] s[j].did == k;
                lemma_map_at(s, j);
                if picked.contains(j) {
                    let a = choose|a: int| 0 <= a < picked.len() && picked[a] == j;
                    assert(rv[a].did == k);
                } else {
                    assert(fails(*check, s[j]));
                }
            }
        }
        out
    }
}

} // verus!
