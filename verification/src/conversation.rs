//! Conversation documents: who takes part, who created a group and what its
//! creator signed; and which recipients have validly excluded themselves.
//!
//! Hashing and Ed25519 signing belong to the caller's key material; they are
//! handed in as closures and told exactly which bytes a signature covers.
use crate::clock::{new_uuid, now_nanos};
use crate::assoc::{contains_did, has_did};
use crate::codec::{bs58_decode, bs58_decoded, bs58_encode, bs58_encoded, strings_view};
use crate::did::{key_of_did, DIDEd25519Reference};
use crate::error::Error;
use crate::message::{be_bytes, be_bytes_exec, clone_bytes, clone_strings, string_bytes};
use crate::page::opt_view;
use vstd::prelude::*;
use vstd::utf8::encode_utf8;

verus! {

#[derive(PartialEq, Eq, Structural, Clone, Copy, Debug)]
pub enum ConversationVersion {
    V0,
}

#[derive(PartialEq, Eq, Structural, Clone, Copy, Debug)]
pub enum ConversationType {
    Direct,
    Group,
}

/// A content id: its text and the digest of its multihash.
#[derive(Debug)]
pub struct ContentId {
    pub text: String,
    pub digest: Vec<u8>,
}

pub open spec fn cid_view(c: Option<ContentId>) -> Option<(Seq<char>, Seq<u8>)> {
    match c {
        Some(c) => Some((c.text@, c.digest@)),
        None => None,
    }
}

fn copy_opt_string(o: &Option<String>) -> (r: Option<String>)
    ensures
        opt_view(r) == opt_view(*o),
{
    match o {
        Some(s) => Some(s.clone()),
        None => None,
    }
}

/// The permissions of a group: for each DID, the names of what it may do.
#[derive(Debug)]
pub struct GroupPermissions {
    pub entries: Vec<(String, Vec<String>)>,
}

pub open spec fn permissions_view(p: GroupPermissions) -> Seq<(Seq<char>, Seq<Seq<char>>)> {
    Seq::new(p.entries@.len(), |i: int| (p.entries@[i].0@, strings_view(p.entries@[i].1@)))
}

impl GroupPermissions {
    /// No permissions.
    pub fn new() -> (r: Self)
        ensures
            permissions_view(r) == Seq::<(Seq<char>, Seq<Seq<char>>)>::empty(),
    {
        let r = GroupPermissions { entries: Vec::new() };
        assert(permissions_view(r) =~= Seq::<(Seq<char>, Seq<Seq<char>>)>::empty());
        r
    }

    pub fn copy(&self) -> (r: Self)
        ensures
            permissions_view(r) == permissions_view(*self),
    {
        let mut entries: Vec<(String, Vec<String>)> = Vec::new();
        let mut i: usize = 0;
        while i < self.entries.len()
            invariant
                i <= self.entries@.len(),
                entries@.len() == i,
                forall|k: int|
                    0 <= k < i ==> (#[trigger] entries@[k]).0@ == self.entries@[k].0@ && strings_view(entries@[k].1@)
                        == strings_view(self.entries@[k].1@),
            decreases self.entries@.len() - i,
        {
            entries.push((self.entries[i].0.clone(), clone_strings(&self.entries[i].1)));
            i += 1;
        }
        let r = GroupPermissions { entries };
        assert(permissions_view(r) =~= permissions_view(*self));
        r
    }
}

/// A conversation's document. Dates are nanoseconds since the epoch; the
/// excluded recipients map to the base58 signature of their exclusion.
#[derive(Debug)]
pub struct ConversationDocument {
    pub id: u128,
    pub version: ConversationVersion,
    pub name: Option<String>,
    pub creator: Option<String>,
    pub created: i64,
    pub modified: i64,
    pub permissions: GroupPermissions,
    pub conversation_type: ConversationType,
    pub recipients: Vec<String>,
    pub favorite: bool,
    pub archived: bool,
    pub excluded: Vec<(String, String)>,
    pub restrict: Vec<String>,
    pub deleted: bool,
    pub messages: Option<String>,
    pub icon: Option<ContentId>,
    pub banner: Option<ContentId>,
    pub description: Option<String>,
    pub signature: Option<String>,
}

pub struct ConversationView {
    pub id: u128,
    pub version: ConversationVersion,
    pub name: Option<Seq<char>>,
    pub creator: Option<Seq<char>>,
    pub created: i64,
    pub modified: i64,
    pub permissions: Seq<(Seq<char>, Seq<Seq<char>>)>,
    pub conversation_type: ConversationType,
    pub recipients: Seq<Seq<char>>,
    pub favorite: bool,
    pub archived: bool,
    pub excluded: Seq<(Seq<char>, Seq<char>)>,
    pub restrict: Seq<Seq<char>>,
    pub deleted: bool,
    pub messages: Option<Seq<char>>,
    pub icon: Option<(Seq<char>, Seq<u8>)>,
    pub banner: Option<(Seq<char>, Seq<u8>)>,
    pub description: Option<Seq<char>>,
    pub signature: Option<Seq<char>>,
}

pub open spec fn pairs_view(s: Seq<(String, String)>) -> Seq<(Seq<char>, Seq<char>)> {
    Seq::new(s.len(), |i: int| (s[i].0@, s[i].1@))
}

impl View for ConversationDocument {
    type V = ConversationView;

    open spec fn view(&self) -> ConversationView {
        ConversationView {
            id: self.id,
            version: self.version,
            name: opt_view(self.name),
            creator: opt_view(self.creator),
            created: self.created,
            modified: self.modified,
            permissions: permissions_view(self.permissions),
            conversation_type: self.conversation_type,
            recipients: strings_view(self.recipients@),
            favorite: self.favorite,
            archived: self.archived,
            excluded: pairs_view(self.excluded@),
            restrict: strings_view(self.restrict@),
            deleted: self.deleted,
            messages: opt_view(self.messages),
            icon: cid_view(self.icon),
            banner: cid_view(self.banner),
            description: opt_view(self.description),
            signature: opt_view(self.signature),
        }
    }
}

/// The UTF-8 bytes of each text, one after the other.
pub open spec fn concat_utf8(s: Seq<Seq<char>>) -> Seq<u8>
    decreases s.len(),
{
    if s.len() == 0 {
        Seq::empty()
    } else {
        concat_utf8(s.drop_last()) + encode_utf8(s.last())
    }
}

/// What a group's signature covers, in order: the conversation id (16
/// big-endian bytes), the creator's DID, the restricted DIDs one after the
/// other, and the digests of the icon and banner when there are any. What is
/// signed is the SHA-256 of the fields that are present.
pub open spec fn group_signing_fields(d: ConversationView, creator: Seq<char>) -> Seq<Option<Seq<u8>>> {
    seq![
        Some(be_bytes(d.id)),
        Some(encode_utf8(creator)),
        Some(concat_utf8(d.restrict)),
        match d.icon {
            Some(c) => Some(c.1),
            None => None,
        },
        match d.banner {
            Some(c) => Some(c.1),
            None => None,
        },
    ]
}

pub open spec fn fields_view(f: Seq<Option<Vec<u8>>>) -> Seq<Option<Seq<u8>>> {
    Seq::new(
        f.len(),
        |i: int|
            match f[i] {
                Some(v) => Some(v@),
                None => None,
            },
    )
}

/// `d`'s signature checks out for `check` with answer `c`: asked about the
/// creator's key, the signed fields and the signature's bytes.
pub open spec fn group_checked<C: Fn(&[u8; 32], &Vec<Option<Vec<u8>>>, &Vec<u8>) -> bool>(
    check: C,
    d: ConversationView,
    c: bool,
) -> bool {
    exists|k: &[u8; 32], f: &Vec<Option<Vec<u8>>>, s: &Vec<u8>|
        k@ == key_of_did(d.creator.unwrap()).unwrap() && fields_view(f@) == group_signing_fields(
            d,
            d.creator.unwrap(),
        ) && s@ == bs58_decoded(d.signature.unwrap()).unwrap() && #[trigger] call_ensures(check, (k, f, s), c)
}

/// What checking a conversation document may give: a direct conversation
/// needs no signature; a group needs a creator with an Ed25519 key and a
/// base58 signature that `check` accepts.
pub open spec fn conversation_verify_outcome<C: Fn(&[u8; 32], &Vec<Option<Vec<u8>>>, &Vec<u8>) -> bool>(
    check: C,
    d: ConversationView,
    r: Result<(), Error>,
) -> bool {
    if d.conversation_type == ConversationType::Direct {
        r is Ok
    } else if d.creator is None {
        r == Err::<(), Error>(Error::PublicKeyInvalid)
    } else if key_of_did(d.creator.unwrap()) is None {
        r == Err::<(), Error>(Error::PublicKeyInvalid)
    } else if d.signature is None {
        r == Err::<(), Error>(Error::InvalidSignature)
    } else if bs58_decoded(d.signature.unwrap()) is None {
        r == Err::<(), Error>(Error::Bs58Error)
    } else {
        (r is Ok && group_checked(check, d, true)) || (r == Err::<(), Error>(Error::InvalidSignature)
            && group_checked(check, d, false))
    }
}

/// What signing `before` may give: a direct conversation stays as it is; a
/// group without creator is refused; otherwise the version becomes `V0` and
/// the signature the base58 text of what `signer` gives for the signed
/// fields.
pub open spec fn conversation_sign_outcome<S: Fn(&Vec<Option<Vec<u8>>>) -> Vec<u8>>(
    signer: S,
    before: ConversationView,
    after: ConversationView,
    r: Result<(), Error>,
) -> bool {
    if before.conversation_type == ConversationType::Direct {
        r is Ok && after == before
    } else if before.creator is None {
        r == Err::<(), Error>(Error::PublicKeyInvalid) && after == before
    } else {
        r is Ok && exists|f: &Vec<Option<Vec<u8>>>, sig: Vec<u8>|
            fields_view(f@) == group_signing_fields(before, before.creator.unwrap()) && #[trigger] call_ensures(
                signer,
                (f,),
                sig,
            ) && after == ConversationView {
                version: ConversationVersion::V0,
                signature: Some(bs58_encoded(sig@)),
                ..before
            } && bs58_decoded(bs58_encoded(sig@)) == Some(sig@)
    }
}

/// `check`, given the key of `creator`, accepts every signature `signer`
/// makes, for the fields it was made for.
pub open spec fn accepts_group_signatures_of<
    S: Fn(&Vec<Option<Vec<u8>>>) -> Vec<u8>,
    C: Fn(&[u8; 32], &Vec<Option<Vec<u8>>>, &Vec<u8>) -> bool,
>(signer: S, check: C, creator: Seq<char>) -> bool {
    forall|f: &Vec<Option<Vec<u8>>>, sig: Vec<u8>, k: &[u8; 32], g: &Vec<Option<Vec<u8>>>, s: &Vec<u8>, c: bool|
        #![trigger call_ensures(signer, (f,), sig), call_ensures(check, (k, g, s), c)]
        call_ensures(signer, (f,), sig) && k@ == key_of_did(creator).unwrap() && fields_view(g@) == fields_view(f@)
            && s@ == sig@ && call_ensures(check, (k, g, s), c) ==> c
}

/// A group conversation signed by `signer` checks out with a `check` that
/// accepts the signatures `signer` makes for its creator's key (a valid
/// one).
pub proof fn law_signed_group_checks_out<
    S: Fn(&Vec<Option<Vec<u8>>>) -> Vec<u8>,
    C: Fn(&[u8; 32], &Vec<Option<Vec<u8>>>, &Vec<u8>) -> bool,
>(signer: S, check: C, before: ConversationView, after: ConversationView, r: Result<(), Error>)
    requires
        conversation_sign_outcome(signer, before, after, Ok(())),
        before.conversation_type != ConversationType::Direct,
        before.creator matches Some(c) && key_of_did(c) is Some,
        accepts_group_signatures_of(signer, check, before.creator.unwrap()),
        conversation_verify_outcome(check, after, r),
    ensures
        r is Ok,
{
    let creator = before.creator.unwrap();
    let (f, sig) = choose|f: &Vec<Option<Vec<u8>>>, sig: Vec<u8>|
        fields_view(f@) == group_signing_fields(before, creator) && #[trigger] call_ensures(signer, (f,), sig)
            && after == ConversationView { version: ConversationVersion::V0, signature: Some(bs58_encoded(sig@)), ..before }
            && bs58_decoded(bs58_encoded(sig@)) == Some(sig@);
    assert(group_signing_fields(after, creator) == group_signing_fields(before, creator));
    if group_checked(check, after, false) {
        let (k, g, s) = choose|k: &[u8; 32], g: &Vec<Option<Vec<u8>>>, s: &Vec<u8>|
            k@ == key_of_did(after.creator.unwrap()).unwrap() && fields_view(g@) == group_signing_fields(
                after,
                after.creator.unwrap(),
            ) && s@ == bs58_decoded(after.signature.unwrap()).unwrap() && #[trigger] call_ensures(check, (k, g, s), false);
        assert(call_ensures(signer, (f,), sig) && call_ensures(check, (k, g, s), false));
    }
}

/// `check` may accept the exclusion `e` (a DID and its base58 signature) as
/// `c`: asked about the DID, the text `exclude <DID>` and the signature's
/// bytes (none when the text is not base58).
pub open spec fn exclusion_checked<X: Fn(&String, &String, &Vec<u8>) -> bool>(
    check: X,
    e: (Seq<char>, Seq<char>),
    c: bool,
) -> bool {
    exists|did: &String, context: &String, s: &Vec<u8>|
        did@ == e.0 && context@ == "exclude "@ + e.0 && s@ == (match bs58_decoded(e.1) {
            Some(b) => b,
            None => Seq::empty(),
        }) && #[trigger] call_ensures(check, (did, context, s), c)
}

/// Some exclusion accepted in `accepted` names `p`.
pub open spec fn excluded_by(excluded: Seq<(Seq<char>, Seq<char>)>, accepted: Seq<bool>, p: Seq<char>) -> bool {
    exists|e: int| 0 <= e < excluded.len() && #[trigger] accepted[e] && excluded[e].0 == p
}

/// The participants that no accepted exclusion names, in order.
pub open spec fn remaining_participants(
    participants: Seq<Seq<char>>,
    excluded: Seq<(Seq<char>, Seq<char>)>,
    accepted: Seq<bool>,
) -> Seq<Seq<char>> {
    participants.filter(|p: Seq<char>| !excluded_by(excluded, accepted, p))
}

/// The participants that have not validly excluded themselves: an exclusion
/// counts when `check` accepts its signature.
pub fn filter_excluded<X: Fn(&String, &String, &Vec<u8>) -> bool>(
    participants: &Vec<String>,
    excluded: &Vec<(String, String)>,
    check: &X,
) -> (r: Vec<String>)
    requires
        forall|d: &String, c: &String, s: &Vec<u8>| call_requires(*check, (d, c, s)),
    ensures
        exists|accepted: Seq<bool>|
            accepted.len() == excluded@.len() && (forall|e: int|
                0 <= e < excluded@.len() ==> exclusion_checked(
                    *check,
                    pairs_view(excluded@)[e],
                    #[trigger] accepted[e],
                )) && strings_view(r@) == remaining_participants(
                strings_view(participants@),
                pairs_view(excluded@),
                accepted,
            ),
{
    let ghost ev = pairs_view(excluded@);
    let mut valid: Vec<bool> = Vec::new();
    let mut e: usize = 0;
    while e < excluded.len()
        invariant
            e <= excluded@.len(),
            ev == pairs_view(excluded@),
            valid@.len() == e,
            forall|d: &String, c: &String, s: &Vec<u8>| call_requires(*check, (d, c, s)),
            forall|k: int| 0 <= k < e ==> exclusion_checked(*check, ev[k], #[trigger] valid@[k]),
        decreases excluded@.len() - e,
    {
        let did = &excluded[e].0;
        let context = String::from_str("exclude ").concat(did.as_str());
        let signature = match bs58_decode(excluded[e].1.as_str()) {
            Some(b) => b,
            None => Vec::new(),
        };
        let ok = check(did, &context, &signature);
        proof {
            assert(ev[e as int] == (excluded@[e as int].0@, excluded@[e as int].1@));
            assert(exclusion_checked(*check, ev[e as int], ok));
        }
        valid.push(ok);
        e += 1;
    }
    let ghost accepted = valid@;
    let ghost pv = strings_view(participants@);
    let mut out: Vec<String> = Vec::new();
    let mut i: usize = 0;
    while i < participants.len()
        invariant
            i <= participants@.len(),
            pv == strings_view(participants@),
            ev == pairs_view(excluded@),
            accepted == valid@,
            accepted.len() == excluded@.len(),
            strings_view(out@) == remaining_participants(pv.subrange(0, i as int), ev, accepted),
        decreases participants@.len() - i,
    {
        let p = &participants[i];
        let mut named = false;
        let mut e: usize = 0;
        while e < excluded.len()
            invariant
                e <= excluded@.len(),
                ev == pairs_view(excluded@),
                accepted == valid@,
                accepted.len() == excluded@.len(),
                named == exists|k: int| 0 <= k < e && #[trigger] accepted[k] && ev[k].0 == p@,
            decreases excluded@.len() - e,
        {
            if valid[e] && excluded[e].0 == *p {
                named = true;
            }
            e += 1;
        }
        proof {
            assert(named == excluded_by(ev, accepted, p@));
            assert(pv.subrange(0, i + 1).drop_last() =~= pv.subrange(0, i as int));
            reveal_with_fuel(Seq::filter, 1);
        }
        if !named {
            let ghost before = out@;
            out.push(p.clone());
            assert(strings_view(out@) =~= strings_view(before).push(p@));
        }
        i += 1;
    }
    assert(pv.subrange(0, participants@.len() as int) =~= pv);
    out
}

pub(crate) fn concat_bytes(v: &Vec<String>) -> (r: Vec<u8>)
    ensures
        r@ == concat_utf8(strings_view(v@)),
{
    let ghost sv = strings_view(v@);
    let mut r: Vec<u8> = Vec::new();
    let mut i: usize = 0;
    while i < v.len()
        invariant
            i <= v@.len(),
            sv == strings_view(v@),
            r@ == concat_utf8(sv.subrange(0, i as int)),
        decreases v@.len() - i,
    {
        let b = string_bytes(&v[i]);
        let mut j: usize = 0;
        let ghost start = r@;
        while j < b.len()
            invariant
                j <= b@.len(),
                r@ == start + b@.subrange(0, j as int),
            decreases b@.len() - j,
        {
            r.push(b[j]);
            assert(b@.subrange(0, j + 1) =~= b@.subrange(0, j as int).push(b@[j as int]));
            j += 1;
        }
        assert(b@.subrange(0, b@.len() as int) =~= b@);
        assert(sv.subrange(0, i + 1).drop_last() =~= sv.subrange(0, i as int));
        i += 1;
    }
    assert(sv.subrange(0, v@.len() as int) =~= sv);
    r
}

/// The recipients a new conversation starts with: those given, and its
/// creator's own DID at the end when it is missing.
pub open spec fn with_own(recipients: Seq<Seq<char>>, own: Seq<char>) -> Seq<Seq<char>> {
    if recipients.contains(own) {
        recipients
    } else {
        recipients.push(own)
    }
}

/// A fresh document, before any signature is checked or made.
pub open spec fn fresh_view(
    own: Seq<char>,
    name: Option<Seq<char>>,
    recipients: Seq<Seq<char>>,
    restrict: Seq<Seq<char>>,
    id: u128,
    conversation_type: ConversationType,
    permissions: Seq<(Seq<char>, Seq<Seq<char>>)>,
    created: i64,
    modified: i64,
    creator: Option<Seq<char>>,
    signature: Option<Seq<char>>,
) -> ConversationView {
    ConversationView {
        id,
        version: ConversationVersion::V0,
        name,
        creator,
        created,
        modified,
        permissions,
        conversation_type,
        recipients: with_own(recipients, own),
        favorite: false,
        archived: false,
        excluded: Seq::empty(),
        restrict,
        deleted: false,
        messages: None,
        icon: None,
        banner: None,
        description: None,
        signature,
    }
}

/// A fresh document made with these arguments: an absent id is `fresh_id`,
/// an absent creation date `now`, an absent modification date the creation
/// date.
pub open spec fn made_view(
    own: Seq<char>,
    name: Option<Seq<char>>,
    recipients: Seq<Seq<char>>,
    restrict: Seq<Seq<char>>,
    id: Option<u128>,
    fresh_id: u128,
    conversation_type: ConversationType,
    permissions: Seq<(Seq<char>, Seq<Seq<char>>)>,
    created: Option<i64>,
    modified: Option<i64>,
    now: i64,
    creator: Option<Seq<char>>,
    signature: Option<Seq<char>>,
) -> ConversationView {
    let c = match created {
        Some(c) => c,
        None => now,
    };
    fresh_view(
        own,
        name,
        recipients,
        restrict,
        match id {
            Some(i) => i,
            None => fresh_id,
        },
        conversation_type,
        permissions,
        c,
        match modified {
            Some(m) => m,
            None => c,
        },
        creator,
        signature,
    )
}

/// What making a conversation from `d0` may give: a signature it comes with
/// must check out, and a creator that is the caller signs it.
pub open spec fn creation_outcome<
    C: Fn(&[u8; 32], &Vec<Option<Vec<u8>>>, &Vec<u8>) -> bool,
    S: Fn(&Vec<Option<Vec<u8>>>) -> Vec<u8>,
>(check: C, signer: S, own: Seq<char>, d0: ConversationView, r: Result<ConversationView, Error>) -> bool {
    match r {
        Err(e) => d0.signature is Some && conversation_verify_outcome(check, d0, Err(e)),
        Ok(d) => (d0.signature is Some ==> conversation_verify_outcome(check, d0, Ok(()))) && if d0.creator
            == Some(own) {
            conversation_sign_outcome(signer, d0, d, Ok(()))
        } else {
            d == d0
        },
    }
}

pub open spec fn result_view(r: Result<ConversationDocument, Error>) -> Result<ConversationView, Error> {
    match r {
        Ok(d) => Ok(d@),
        Err(e) => Err(e),
    }
}

/// The document of a direct conversation: its two participants and the CID
/// (as text) of its message list.
#[derive(Debug)]
pub struct DirectConversationDocument {
    pub participants: [String; 2],
    pub messages: Option<String>,
}

/// The document of a group: its creator, participants (each once, in the
/// order they joined), message list, permissions, exclusions and restricted
/// DIDs.
#[derive(Debug)]
pub struct GroupConversationDocument {
    pub creator: String,
    pub participants: Vec<String>,
    pub messages: Option<String>,
    pub permissions: GroupPermissions,
    pub excluded: Vec<(String, String)>,
    pub restrict: Vec<String>,
}

#[derive(Debug)]
pub enum InnerDocument {
    Direct(DirectConversationDocument),
    Group(GroupConversationDocument),
}

pub open spec fn inner_messages(d: InnerDocument) -> Option<Seq<char>> {
    match d {
        InnerDocument::Direct(x) => opt_view(x.messages),
        InnerDocument::Group(x) => opt_view(x.messages),
    }
}

impl InnerDocument {
    /// Points the document at another message list.
    pub fn set_messages_cid(&mut self, cid: Option<String>)
        ensures
            inner_messages(*final(self)) == opt_view(cid),
            match (*old(self), *final(self)) {
                (InnerDocument::Direct(a), InnerDocument::Direct(b)) => a.participants@ == b.participants@,
                (InnerDocument::Group(a), InnerDocument::Group(b)) => b == GroupConversationDocument {
                    messages: b.messages,
                    ..a
                },
                _ => false,
            },
    {
        match self {
            InnerDocument::Group(document) => document.messages = cid,
            InnerDocument::Direct(document) => document.messages = cid,
        }
    }

    /// The CID (as text) of the message list.
    pub fn messages_cid(&self) -> (r: Option<String>)
        ensures
            opt_view(r) == inner_messages(*self),
    {
        match self {
            InnerDocument::Group(document) => copy_opt_string(&document.messages),
            InnerDocument::Direct(document) => copy_opt_string(&document.messages),
        }
    }

    /// Who takes part: both participants of a direct conversation; the
    /// participants of a group that have not validly excluded themselves.
    pub fn participants<X: Fn(&String, &String, &Vec<u8>) -> bool>(&self, check: &X) -> (r: Vec<String>)
        requires
            forall|d: &String, c: &String, s: &Vec<u8>| call_requires(*check, (d, c, s)),
        ensures
            match *self {
                InnerDocument::Direct(x) => strings_view(r@) == seq![x.participants@[0]@, x.participants@[1]@],
                InnerDocument::Group(x) => exists|accepted: Seq<bool>|
                    accepted.len() == x.excluded@.len() && (forall|e: int|
                        0 <= e < x.excluded@.len() ==> exclusion_checked(
                            *check,
                            pairs_view(x.excluded@)[e],
                            #[trigger] accepted[e],
                        )) && strings_view(r@) == remaining_participants(
                        strings_view(x.participants@),
                        pairs_view(x.excluded@),
                        accepted,
                    ),
            },
    {
        match self {
            InnerDocument::Direct(document) => {
                let mut r: Vec<String> = Vec::new();
                r.push(document.participants[0].clone());
                r.push(document.participants[1].clone());
                assert(strings_view(r@) =~= seq![document.participants@[0]@, document.participants@[1]@]);
                r
            },
            InnerDocument::Group(document) => filter_excluded(&document.participants, &document.excluded, check),
        }
    }
}

impl ConversationDocument {
    /// Makes a conversation. The caller (`own_did`) is added to the
    /// recipients when missing; an absent id is `fresh_id`, an absent
    /// creation date `now`, an absent modification date the creation date. A
    /// signature that comes with it must check out; when the caller is the
    /// creator, the document is signed.
    pub fn new_at<
        C: Fn(&[u8; 32], &Vec<Option<Vec<u8>>>, &Vec<u8>) -> bool,
        S: Fn(&Vec<Option<Vec<u8>>>) -> Vec<u8>,
    >(
        own_did: &String,
        name: Option<String>,
        recipients: Vec<String>,
        restrict: Vec<String>,
        id: Option<u128>,
        fresh_id: u128,
        conversation_type: ConversationType,
        permissions: GroupPermissions,
        created: Option<i64>,
        modified: Option<i64>,
        now: i64,
        creator: Option<String>,
        signature: Option<String>,
        check: &C,
        signer: &S,
    ) -> (r: Result<Self, Error>)
        requires
            forall|k: &[u8; 32], f: &Vec<Option<Vec<u8>>>, s: &Vec<u8>| call_requires(*check, (k, f, s)),
            forall|f: &Vec<Option<Vec<u8>>>| call_requires(*signer, (f,)),
        ensures
            creation_outcome(
                *check,
                *signer,
                own_did@,
                made_view(
                    own_did@,
                    opt_view(name),
                    strings_view(recipients@),
                    strings_view(restrict@),
                    id,
                    fresh_id,
                    conversation_type,
                    permissions_view(permissions),
                    created,
                    modified,
                    now,
                    opt_view(creator),
                    opt_view(signature),
                ),
                result_view(r),
            ),
    {
        let id = match id {
            Some(i) => i,
            None => fresh_id,
        };
        let mut recipients = recipients;
        let ghost given = strings_view(recipients@);
        proof {
            crate::assoc::lemma_has_did_view(recipients@, own_did@);
        }
        if !contains_did(&recipients, own_did) {
            recipients.push(own_did.clone());
            assert(strings_view(recipients@) =~= given.push(own_did@));
        }
        let created = match created {
            Some(c) => c,
            None => now,
        };
        let modified = match modified {
            Some(m) => m,
            None => created,
        };
        let is_creator = match &creator {
            Some(c) => *c == *own_did,
            None => false,
        };
        let mut document = ConversationDocument {
            id,
            version: ConversationVersion::V0,
            name,
            creator,
            created,
            modified,
            permissions,
            conversation_type,
            recipients,
            favorite: false,
            archived: false,
            excluded: Vec::new(),
            restrict,
            deleted: false,
            messages: None,
            icon: None,
            banner: None,
            description: None,
            signature,
        };
        assert(document@.excluded =~= Seq::<(Seq<char>, Seq<char>)>::empty());
        if document.signature.is_some() {
            match document.verify(check) {
                Ok(()) => {},
                Err(e) => {
                    return Err(e);
                },
            }
        }
        if is_creator {
            let signed = document.sign(signer);
            assert(signed is Ok);
        }
        Ok(document)
    }

    /// Makes a conversation now, with a fresh random id when none is given
    /// (see `new_at`).
    pub fn new<
        C: Fn(&[u8; 32], &Vec<Option<Vec<u8>>>, &Vec<u8>) -> bool,
        S: Fn(&Vec<Option<Vec<u8>>>) -> Vec<u8>,
    >(
        own_did: &String,
        name: Option<String>,
        recipients: Vec<String>,
        restrict: Vec<String>,
        id: Option<u128>,
        conversation_type: ConversationType,
        permissions: GroupPermissions,
        created: Option<i64>,
        modified: Option<i64>,
        creator: Option<String>,
        signature: Option<String>,
        check: &C,
        signer: &S,
    ) -> (r: Result<Self, Error>)
        requires
            forall|k: &[u8; 32], f: &Vec<Option<Vec<u8>>>, s: &Vec<u8>| call_requires(*check, (k, f, s)),
            forall|f: &Vec<Option<Vec<u8>>>| call_requires(*signer, (f,)),
        ensures
            exists|fresh_id: u128, now: i64|
                creation_outcome(
                    *check,
                    *signer,
                    own_did@,
                    #[trigger] made_view(
                        own_did@,
                        opt_view(name),
                        strings_view(recipients@),
                        strings_view(restrict@),
                        id,
                        fresh_id,
                        conversation_type,
                        permissions_view(permissions),
                        created,
                        modified,
                        now,
                        opt_view(creator),
                        opt_view(signature),
                    ),
                    result_view(r),
                ),
    {
        let fresh_id = new_uuid();
        let now = now_nanos();
        Self::new_at(
            own_did,
            name,
            recipients,
            restrict,
            id,
            fresh_id,
            conversation_type,
            permissions,
            created,
            modified,
            now,
            creator,
            signature,
            check,
            signer,
        )
    }

    /// Makes a group created by the caller, with a fresh random id, signed
    /// by the caller.
    pub fn new_group<
        C: Fn(&[u8; 32], &Vec<Option<Vec<u8>>>, &Vec<u8>) -> bool,
        S: Fn(&Vec<Option<Vec<u8>>>) -> Vec<u8>,
    >(
        own_did: &String,
        name: Option<String>,
        recipients: Vec<String>,
        restrict: Vec<String>,
        permissions: GroupPermissions,
        check: &C,
        signer: &S,
    ) -> (r: Result<Self, Error>)
        requires
            forall|k: &[u8; 32], f: &Vec<Option<Vec<u8>>>, s: &Vec<u8>| call_requires(*check, (k, f, s)),
            forall|f: &Vec<Option<Vec<u8>>>| call_requires(*signer, (f,)),
        ensures
            r matches Ok(d) && exists|fresh_id: u128, now: i64|
                conversation_sign_outcome(
                    *signer,
                    #[trigger] fresh_view(
                        own_did@,
                        opt_view(name),
                        strings_view(recipients@),
                        strings_view(restrict@),
                        fresh_id,
                        ConversationType::Group,
                        permissions_view(permissions),
                        now,
                        now,
                        Some(own_did@),
                        None,
                    ),
                    d@,
                    Ok(()),
                ),
    {
        let fresh_id = new_uuid();
        let now = now_nanos();
        let r = Self::new_at(
            own_did,
            name,
            recipients,
            restrict,
            Some(fresh_id),
            fresh_id,
            ConversationType::Group,
            permissions,
            None,
            None,
            now,
            Some(own_did.clone()),
            None,
            check,
            signer,
        );
        r
    }

    /// Makes the direct conversation between the caller and the other of
    /// the two recipients; its id is the topic `shared_id` derives from the
    /// caller's key and the other's DID. When both recipients are the caller
    /// there is no other, and the conversation is refused.
    pub fn new_direct<
        C: Fn(&[u8; 32], &Vec<Option<Vec<u8>>>, &Vec<u8>) -> bool,
        S: Fn(&Vec<Option<Vec<u8>>>) -> Vec<u8>,
        T: Fn(&String) -> Result<u128, Error>,
    >(own_did: &String, recipients: [String; 2], shared_id: &T, check: &C, signer: &S) -> (r: Result<Self, Error>)
        requires
            forall|k: &[u8; 32], f: &Vec<Option<Vec<u8>>>, s: &Vec<u8>| call_requires(*check, (k, f, s)),
            forall|f: &Vec<Option<Vec<u8>>>| call_requires(*signer, (f,)),
            forall|d: &String| call_requires(*shared_id, (d,)),
        ensures
            recipients@[0]@ == own_did@ && recipients@[1]@ == own_did@ ==> r == Err::<Self, Error>(Error::Other),
            !(recipients@[0]@ == own_did@ && recipients@[1]@ == own_did@) ==> {
                let other = if recipients@[0]@ != own_did@ {
                    recipients@[0]@
                } else {
                    recipients@[1]@
                };
                exists|d: &String, t: Result<u128, Error>|
                    d@ == other && #[trigger] call_ensures(*shared_id, (d,), t) && match t {
                        Err(e) => r == Err::<Self, Error>(e),
                        Ok(id) => r matches Ok(doc) && doc@ == fresh_view(
                            own_did@,
                            None,
                            seq![recipients@[0]@, recipients@[1]@],
                            Seq::empty(),
                            id,
                            ConversationType::Direct,
                            Seq::empty(),
                            doc@.created,
                            doc@.created,
                            None,
                            None,
                        ),
                    }
            },
    {
        let first = &recipients[0];
        let second = &recipients[1];
        let other = if *first != *own_did {
            first
        } else if *second != *own_did {
            second
        } else {
            return Err(Error::Other);
        };
        let t = shared_id(other);
        let id = match t {
            Ok(id) => id,
            Err(e) => {
                return Err(e);
            },
        };
        let mut list: Vec<String> = Vec::new();
        list.push(first.clone());
        list.push(second.clone());
        let ghost lv = strings_view(list@);
        assert(lv =~= seq![recipients@[0]@, recipients@[1]@]);
        let permissions = GroupPermissions::new();
        let restrict: Vec<String> = Vec::new();
        assert(strings_view(restrict@) =~= Seq::<Seq<char>>::empty());
        let r = Self::new_at(
            own_did,
            None,
            list,
            restrict,
            Some(id),
            id,
            ConversationType::Direct,
            permissions,
            None,
            None,
            now_nanos(),
            None,
            None,
            check,
            signer,
        );
        r
    }

    pub fn id(&self) -> (r: u128)
        ensures
            r == self.id,
    {
        self.id
    }

    pub fn name(&self) -> (r: Option<String>)
        ensures
            opt_view(r) == opt_view(self.name),
    {
        copy_opt_string(&self.name)
    }

    pub fn conversation_type(&self) -> (r: ConversationType)
        ensures
            r == self.conversation_type,
    {
        self.conversation_type
    }

    /// The recipients that have not validly excluded themselves.
    pub fn recipients<X: Fn(&String, &String, &Vec<u8>) -> bool>(&self, check: &X) -> (r: Vec<String>)
        requires
            forall|d: &String, c: &String, s: &Vec<u8>| call_requires(*check, (d, c, s)),
        ensures
            exists|accepted: Seq<bool>|
                accepted.len() == self@.excluded.len() && (forall|e: int|
                    0 <= e < self@.excluded.len() ==> exclusion_checked(
                        *check,
                        self@.excluded[e],
                        #[trigger] accepted[e],
                    )) && strings_view(r@) == remaining_participants(self@.recipients, self@.excluded, accepted),
    {
        let r = filter_excluded(&self.recipients, &self.excluded, check);
        proof {
            let accepted = choose|accepted: Seq<bool>|
                accepted.len() == self.excluded@.len() && (forall|e: int|
                    0 <= e < self.excluded@.len() ==> exclusion_checked(
                        *check,
                        pairs_view(self.excluded@)[e],
                        #[trigger] accepted[e],
                    )) && strings_view(r@) == remaining_participants(
                    strings_view(self.recipients@),
                    pairs_view(self.excluded@),
                    accepted,
                );
            assert(self@.excluded == pairs_view(self.excluded@));
            assert(accepted.len() == self@.excluded.len() && (forall|e: int|
                0 <= e < self@.excluded.len() ==> exclusion_checked(*check, self@.excluded[e], #[trigger] accepted[e]))
                && strings_view(r@) == remaining_participants(self@.recipients, self@.excluded, accepted));
        }
        r
    }

    /// The fields a group's signature covers, for the given creator.
    pub fn signing_fields(&self, creator: &String) -> (r: Vec<Option<Vec<u8>>>)
        ensures
            fields_view(r@) == group_signing_fields(self@, creator@),
    {
        let mut r: Vec<Option<Vec<u8>>> = Vec::new();
        r.push(Some(be_bytes_exec(self.id)));
        r.push(Some(string_bytes(creator)));
        r.push(Some(concat_bytes(&self.restrict)));
        r.push(
            match &self.icon {
                Some(c) => Some(clone_bytes(&c.digest)),
                None => None,
            },
        );
        r.push(
            match &self.banner {
                Some(c) => Some(clone_bytes(&c.digest)),
                None => None,
            },
        );
        assert(fields_view(r@) =~= group_signing_fields(self@, creator@));
        r
    }

    /// Signs a group with `signer` (the creator's key): the version is reset
    /// to `V0` and the signature set. A direct conversation is left as it
    /// is; a group without creator is refused.
    pub fn sign<S: Fn(&Vec<Option<Vec<u8>>>) -> Vec<u8>>(&mut self, signer: &S) -> (r: Result<(), Error>)
        requires
            forall|f: &Vec<Option<Vec<u8>>>| call_requires(*signer, (f,)),
        ensures
            conversation_sign_outcome(*signer, old(self)@, final(self)@, r),
    {
        if self.conversation_type == ConversationType::Direct {
            return Ok(());
        }
        let creator = match &self.creator {
            Some(c) => c.clone(),
            None => {
                return Err(Error::PublicKeyInvalid);
            },
        };
        self.version = ConversationVersion::V0;
        let fields = self.signing_fields(&creator);
        let sig = signer(&fields);
        self.signature = Some(bs58_encode(sig.as_slice()));
        Ok(())
    }

    /// Checks a group's signature against its creator's key with `check`. A
    /// direct conversation needs none.
    pub fn verify<C: Fn(&[u8; 32], &Vec<Option<Vec<u8>>>, &Vec<u8>) -> bool>(&self, check: &C) -> (r: Result<
        (),
        Error,
    >)
        requires
            forall|k: &[u8; 32], f: &Vec<Option<Vec<u8>>>, s: &Vec<u8>| call_requires(*check, (k, f, s)),
        ensures
            conversation_verify_outcome(*check, self@, r),
    {
        if self.conversation_type == ConversationType::Direct {
            return Ok(());
        }
        let creator = match &self.creator {
            Some(c) => c,
            None => {
                return Err(Error::PublicKeyInvalid);
            },
        };
        let key = match DIDEd25519Reference::try_from_did(creator) {
            Some(k) => k,
            None => {
                return Err(Error::PublicKeyInvalid);
            },
        };
        let signature = match &self.signature {
            Some(s) => s,
            None => {
                return Err(Error::InvalidSignature);
            },
        };
        let signature = match bs58_decode(signature.as_str()) {
            Some(b) => b,
            None => {
                return Err(Error::Bs58Error);
            },
        };
        let fields = self.signing_fields(creator);
        if check(&key.0, &fields, &signature) {
            Ok(())
        } else {
            Err(Error::InvalidSignature)
        }
    }
}


/// The peer a direct conversation's events are encrypted for: the first of
/// its recipients that is not oneself. A conversation with no such recipient
/// is not a valid one.
pub fn direct_peer(recipients: &Vec<String>, own_did: &String) -> (r: Result<String, Error>)
    ensures
        match r {
            Ok(d) => exists|i: int|
                0 <= i < recipients@.len() && recipients@[i]@ != own_did@ && d@ == recipients@[i]@ && (forall|j: int|
                    0 <= j < i ==> (#[trigger] recipients@[j])@ == own_did@),
            Err(e) => e == Error::InvalidConversation && forall|j: int|
                0 <= j < recipients@.len() ==> (#[trigger] recipients@[j])@ == own_did@,
        },
{
    let mut i: usize = 0;
    while i < recipients.len()
        invariant
            i <= recipients@.len(),
            forall|j: int| 0 <= j < i ==> (#[trigger] recipients@[j])@ == own_did@,
        decreases recipients@.len() - i,
    {
        if recipients[i] != *own_did {
            return Ok(recipients[i].clone());
        }
        i = i + 1;
    }
    Err(Error::InvalidConversation)
}

} // verus!
