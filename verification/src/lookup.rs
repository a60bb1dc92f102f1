//! Looking identities up among the cached documents: by DID, by a list of
//! DIDs, by username (a lower-case "contains", or `name#code` with the code
//! matched against the short id), or by short id. Asking other nodes when
//! nothing is found is the caller's part.
use crate::cache::docs_view;
use crate::codec::{lossy_text, lowercase, strings_view, to_lower, utf8_lossy};
use crate::identity::{same_identity, IdentityDocument, IdentityDocumentView};
use vstd::prelude::*;

verus! {

/// How identities are looked up.
#[derive(Debug)]
pub enum LookupBy {
    DidKey(String),
    DidKeys(Vec<String>),
    Username(String),
    ShortId(String),
}

pub enum LookupView {
    DidKey(Seq<char>),
    DidKeys(Seq<Seq<char>>),
    Username(Seq<char>),
    ShortId(Seq<char>),
}

impl View for LookupBy {
    type V = LookupView;

    open spec fn view(&self) -> LookupView {
        match self {
            LookupBy::DidKey(k) => LookupView::DidKey(k@),
            LookupBy::DidKeys(ks) => LookupView::DidKeys(strings_view(ks@)),
            LookupBy::Username(u) => LookupView::Username(u@),
            LookupBy::ShortId(s) => LookupView::ShortId(s@),
        }
    }
}

/// `needle` occurs in `hay`.
pub open spec fn has_text(hay: Seq<char>, needle: Seq<char>) -> bool {
    exists|i: int| 0 <= i <= hay.len() - needle.len() && #[trigger] hay.subrange(i, i + needle.len()) == needle
}

/// `u` holds `#` once, at `i`.
pub open spec fn single_hash_at(u: Seq<char>, i: int) -> bool {
    0 <= i < u.len() && u[i] == '#' && forall|j: int| 0 <= j < u.len() && j != i ==> u[j] != '#'
}

/// A username query of the form `name#code`: split at its only `#`.
pub open spec fn name_and_code(u: Seq<char>) -> Option<(Seq<char>, Seq<char>)> {
    if exists|i: int| single_hash_at(u, i) {
        let i = choose|i: int| single_hash_at(u, i);
        Some((u.subrange(0, i), u.subrange(i + 1, u.len() as int)))
    } else {
        None
    }
}

/// The document `d` answers the query `by`.
pub open spec fn lookup_match(by: LookupView, d: IdentityDocumentView) -> bool {
    match by {
        LookupView::DidKey(k) => d.did == k,
        LookupView::DidKeys(ks) => ks.contains(d.did),
        LookupView::Username(u) => match name_and_code(u) {
            Some((name, code)) => lowercase(d.username) == lowercase(name) && lowercase(utf8_lossy(d.short_id))
                == lowercase(code),
            None => has_text(lowercase(d.username), lowercase(u)),
        },
        LookupView::ShortId(s) => utf8_lossy(d.short_id) == s,
    }
}

/// `m` holds a document of the same identity as `d`.
pub open spec fn holds_identity(m: Seq<IdentityDocumentView>, d: IdentityDocumentView) -> bool {
    exists|j: int| 0 <= j < m.len() && same_identity(#[trigger] m[j], d)
}

/// `m` with `d` added unless `m` holds its identity already.
pub open spec fn add_identity(m: Seq<IdentityDocumentView>, d: IdentityDocumentView) -> Seq<IdentityDocumentView> {
    if holds_identity(m, d) {
        m
    } else {
        m.push(d)
    }
}

/// The documents of `s` that answer `by`, in order, each identity once.
pub open spec fn matching(s: Seq<IdentityDocumentView>, by: LookupView) -> Seq<IdentityDocumentView>
    decreases s.len(),
{
    if s.len() == 0 {
        Seq::empty()
    } else {
        let m = matching(s.drop_last(), by);
        if lookup_match(by, s.last()) {
            add_identity(m, s.last())
        } else {
            m
        }
    }
}

/// What a lookup among the cached documents `cache` gives, `own` being one's
/// own document: one's own DID gives one's own document alone; a list
/// holding it gives one's own document besides the cached matches.
pub open spec fn lookup_result(
    cache: Seq<IdentityDocumentView>,
    own: IdentityDocumentView,
    by: LookupView,
) -> Seq<IdentityDocumentView> {
    match by {
        LookupView::DidKey(k) => if k == own.did {
            seq![own]
        } else {
            matching(cache, by)
        },
        LookupView::DidKeys(ks) => if ks.contains(own.did) {
            add_identity(matching(cache, by), own)
        } else {
            matching(cache, by)
        },
        _ => matching(cache, by),
    }
}

/// Whether `needle` occurs in `hay`.
fn contains_text(hay: &str, needle: &str) -> (b: bool)
    ensures
        b == has_text(hay@, needle@),
{
    let n = hay.unicode_len();
    let m = needle.unicode_len();
    if m > n {
        proof {
            assert forall|i: int| 0 <= i <= hay@.len() - needle@.len() implies #[trigger] hay@.subrange(
                i,
                i + needle@.len(),
            ) != needle@ by {}
        }
        return false;
    }
    let mut i: usize = 0;
    while i <= n - m
        invariant
            n == hay@.len(),
            m == needle@.len(),
            m <= n,
            i <= n - m + 1,
            forall|k: int| 0 <= k < i ==> #[trigger] hay@.subrange(k, k + m) != needle@,
        decreases n - m + 1 - i,
    {
        let mut j: usize = 0;
        while j < m && hay.get_char(i + j) == needle.get_char(j)
            invariant
                n == hay@.len(),
                m == needle@.len(),
                i + m <= n,
                j <= m,
                forall|t: int| 0 <= t < j ==> hay@[i + t] == needle@[t],
            decreases m - j,
        {
            j += 1;
        }
        if j == m {
            assert(hay@.subrange(i as int, i + m) =~= needle@);
            return true;
        }
        assert(hay@.subrange(i as int, i + m)[j as int] != needle@[j as int]);
        i += 1;
    }
    proof {
        assert forall|k: int| 0 <= k <= hay@.len() - needle@.len() implies #[trigger] hay@.subrange(k, k + m)
            != needle@ by {}
    }
    false
}

/// The position of the only `#` of `u`, if it holds exactly one.
fn single_hash(u: &str) -> (r: Option<usize>)
    ensures
        match r {
            Some(i) => single_hash_at(u@, i as int),
            None => forall|i: int| !single_hash_at(u@, i),
        },
{
    let n = u.unicode_len();
    let mut found: Option<usize> = None;
    let mut i: usize = 0;
    while i < n
        invariant
            n == u@.len(),
            i <= n,
            match found {
                Some(p) => p < i && u@[p as int] == '#' && forall|j: int| 0 <= j < i && j != p ==> u@[j] != '#',
                None => forall|j: int| 0 <= j < i ==> u@[j] != '#',
            },
        decreases n - i,
    {
        if u.get_char(i) == '#' {
            match found {
                Some(p) => {
                    proof {
                        assert forall|k: int| !single_hash_at(u@, k) by {
                            if single_hash_at(u@, k) {
                                if k == p {
                                    assert(u@[i as int] == '#');
                                } else {
                                    assert(u@[p as int] == '#');
                                }
                            }
                        }
                    }
                    return None;
                },
                None => {
                    found = Some(i);
                },
            }
        }
        i += 1;
    }
    match found {
        Some(p) => Some(p),
        None => {
            proof {
                assert forall|k: int| !single_hash_at(u@, k) by {
                    if single_hash_at(u@, k) {
                        assert(u@[k] == '#');
                    }
                }
            }
            None
        },
    }
}

/// Whether `did` is in `list`.
fn has_did(list: &Vec<String>, did: &String) -> (b: bool)
    ensures
        b == strings_view(list@).contains(did@),
{
    let r = crate::assoc::contains_did(list, did);
    proof {
        crate::assoc::lemma_has_did_view(list@, did@);
    }
    r
}

/// Whether the document `d` answers the query `by`.
pub fn lookup_matches(by: &LookupBy, d: &IdentityDocument) -> (b: bool)
    ensures
        b == lookup_match(by@, d@),
{
    match by {
        LookupBy::DidKey(k) => d.did == *k,
        LookupBy::DidKeys(ks) => has_did(ks, &d.did),
        LookupBy::Username(u) => {
            let h = single_hash(u.as_str());
            proof {
                if let Some(p) = h {
                    let i = choose|i: int| single_hash_at(u@, i);
                    if i != p as int {
                        assert(u@[i] == '#');
                    }
                }
            }
            match h {
                Some(p) => {
                    let n = u.as_str().unicode_len();
                    let name = u.as_str().substring_char(0, p);
                    let code = u.as_str().substring_char(p + 1, n);
                    let own_name = to_lower(d.username.as_str());
                    let wanted_name = to_lower(name);
                    if own_name != wanted_name {
                        return false;
                    }
                    let short = lossy_text(d.short_id.as_slice());
                    let own_code = to_lower(short.as_str());
                    let wanted_code = to_lower(code);
                    own_code == wanted_code
                },
                None => {
                    let own_name = to_lower(d.username.as_str());
                    let wanted = to_lower(u.as_str());
                    contains_text(own_name.as_str(), wanted.as_str())
                },
            }
        },
        LookupBy::ShortId(s) => {
            let short = lossy_text(d.short_id.as_slice());
            short == *s
        },
    }
}

/// Whether `m` holds a document of the same identity as `d`.
fn holds(m: &Vec<IdentityDocument>, d: &IdentityDocument) -> (b: bool)
    ensures
        b == holds_identity(docs_view(m@), d@),
{
    let mut i: usize = 0;
    while i < m.len()
        invariant
            i <= m@.len(),
            forall|j: int| 0 <= j < i ==> !same_identity(#[trigger] docs_view(m@)[j], d@),
        decreases m@.len() - i,
    {
        if m[i].same(d) {
            assert(same_identity(docs_view(m@)[i as int], d@));
            return true;
        }
        i += 1;
    }
    false
}

/// Adds `d` to `m` unless `m` holds its identity already.
fn add_doc(m: &mut Vec<IdentityDocument>, d: &IdentityDocument)
    ensures
        docs_view(final(m)@) == add_identity(docs_view(old(m)@), d@),
{
    if !holds(m, d) {
        let ghost before = docs_view(m@);
        m.push(d.copy());
        assert(docs_view(m@) =~= before.push(d@));
    }
}

/// Looks identities up among the cached documents `cache`, `own` being one's
/// own document (see `lookup_result`).
pub fn lookup(cache: &Vec<IdentityDocument>, own: &IdentityDocument, by: &LookupBy) -> (r: Vec<IdentityDocument>)
    ensures
        docs_view(r@) == lookup_result(docs_view(cache@), own@, by@),
{
    if let LookupBy::DidKey(k) = by {
        if *k == own.did {
            let mut r: Vec<IdentityDocument> = Vec::new();
            r.push(own.copy());
            assert(docs_view(r@) =~= seq![own@]);
            return r;
        }
    }
    let ghost s = docs_view(cache@);
    let mut r: Vec<IdentityDocument> = Vec::new();
    let mut i: usize = 0;
    while i < cache.len()
        invariant
            i <= cache@.len(),
            s == docs_view(cache@),
            docs_view(r@) == matching(s.subrange(0, i as int), by@),
        decreases cache@.len() - i,
    {
        assert(s.subrange(0, i + 1).drop_last() =~= s.subrange(0, i as int));
        assert(s.subrange(0, i + 1).last() == cache@[i as int]@);
        if lookup_matches(by, &cache[i]) {
            add_doc(&mut r, &cache[i]);
        }
        i += 1;
    }
    assert(s.subrange(0, cache@.len() as int) =~= s);
    if let LookupBy::DidKeys(ks) = by {
        if has_did(ks, &own.did) {
            add_doc(&mut r, own);
        }
    }
    r
}

/// The DIDs a lookup starts discovering: the one asked for, or those of the
/// list, other than one's own.
pub fn lookup_discoveries(own_did: &String, by: &LookupBy) -> (r: Vec<String>)
    ensures
        strings_view(r@) == match by@ {
            LookupView::DidKey(k) => if k == own_did@ {
                Seq::<Seq<char>>::empty()
            } else {
                seq![k]
            },
            LookupView::DidKeys(ks) => ks.filter(|k: Seq<char>| k != own_did@),
            _ => Seq::<Seq<char>>::empty(),
        },
{
    let mut r: Vec<String> = Vec::new();
    match by {
        LookupBy::DidKey(k) => {
            if *k != *own_did {
                r.push(k.clone());
                assert(strings_view(r@) =~= seq![k@]);
            } else {
                assert(strings_view(r@) =~= Seq::<Seq<char>>::empty());
            }
        },
        LookupBy::DidKeys(ks) => {
            let ghost v = strings_view(ks@);
            let mut i: usize = 0;
            while i < ks.len()
                invariant
                    i <= ks@.len(),
                    v == strings_view(ks@),
                    strings_view(r@) == v.subrange(0, i as int).filter(|k: Seq<char>| k != own_did@),
                decreases ks@.len() - i,
            {
                let ghost before = strings_view(r@);
                proof {
                    assert(v.subrange(0, i + 1).drop_last() =~= v.subrange(0, i as int));
                    reveal(Seq::filter);
                }
                if ks[i] != *own_did {
                    r.push(ks[i].clone());
                    assert(strings_view(r@) =~= before.push(ks@[i as int]@));
                } else {
                    assert(strings_view(r@) =~= before);
                }
                i += 1;
            }
            assert(v.subrange(0, ks@.len() as int) =~= v);
        },
        _ => {
            assert(strings_view(r@) =~= Seq::<Seq<char>>::empty());
        },
    }
    r
}

} // verus!
