//! The root document of an identity: the content ids (as text) of its
//! identity document and of its lists, its dates (nanoseconds since the
//! epoch) and presence, and the signature that seals it. Serialising the
//! document and making or checking the Ed25519 signature belong to the
//! caller's key material; they are handed in as closures and told exactly
//! which document to serialise.
use crate::clock::now_nanos;
use crate::codec::{bs58_decode, bs58_decoded, bs58_encode, bs58_encoded};
use crate::did::{key_of_did, DIDEd25519Reference};
use crate::error::Error;
use crate::identity::IdentityStatus;
use crate::page::opt_view;
use vstd::prelude::*;

verus! {

#[derive(Debug)]
pub struct RootDocument {
    pub identity: String,
    pub created: i64,
    pub modified: i64,
    pub friends: Option<String>,
    pub blocks: Option<String>,
    pub block_by: Option<String>,
    pub request: Option<String>,
    pub conversations: Option<String>,
    pub communities: Option<String>,
    pub keystore: Option<String>,
    pub file_index: Option<String>,
    pub status: Option<IdentityStatus>,
    pub signature: Option<String>,
}

pub struct RootDocumentView {
    pub identity: Seq<char>,
    pub created: i64,
    pub modified: i64,
    pub friends: Option<Seq<char>>,
    pub blocks: Option<Seq<char>>,
    pub block_by: Option<Seq<char>>,
    pub request: Option<Seq<char>>,
    pub conversations: Option<Seq<char>>,
    pub communities: Option<Seq<char>>,
    pub keystore: Option<Seq<char>>,
    pub file_index: Option<Seq<char>>,
    pub status: Option<IdentityStatus>,
    pub signature: Option<Seq<char>>,
}

impl View for RootDocument {
    type V = RootDocumentView;

    open spec fn view(&self) -> RootDocumentView {
        RootDocumentView {
            identity: self.identity@,
            created: self.created,
            modified: self.modified,
            friends: opt_view(self.friends),
            blocks: opt_view(self.blocks),
            block_by: opt_view(self.block_by),
            request: opt_view(self.request),
            conversations: opt_view(self.conversations),
            communities: opt_view(self.communities),
            keystore: opt_view(self.keystore),
            file_index: opt_view(self.file_index),
            status: self.status,
            signature: opt_view(self.signature),
        }
    }
}

/// What the signature covers: the document without its signature.
pub open spec fn root_unsigned(d: RootDocumentView) -> RootDocumentView {
    RootDocumentView { signature: None, ..d }
}

/// `d` is `before` stamped at `now` and signed with the bytes `signer` gave
/// for it without a signature.
pub open spec fn root_signed_by<S: Fn(&RootDocument) -> Vec<u8>>(
    signer: S,
    before: RootDocumentView,
    now: i64,
    d: RootDocumentView,
) -> bool {
    let stamped = RootDocumentView { modified: now, signature: None, ..before };
    exists|p: &RootDocument, sig: Vec<u8>|
        p@ == stamped && #[trigger] call_ensures(signer, (p,), sig) && d == RootDocumentView {
            signature: Some(bs58_encoded(sig@)),
            ..stamped
        } && bs58_decoded(bs58_encoded(sig@)) == Some(sig@)
}

/// `check`, asked with the identity's key about the unsigned document and
/// its signature's bytes, may answer `c`.
pub open spec fn root_checked<C: Fn(&[u8; 32], &RootDocument, &Vec<u8>) -> bool>(
    check: C,
    did: Seq<char>,
    d: RootDocumentView,
    c: bool,
) -> bool {
    exists|k: &[u8; 32], p: &RootDocument, s: &Vec<u8>|
        k@ == key_of_did(did).unwrap() && p@ == root_unsigned(d) && s@ == bs58_decoded(d.signature.unwrap()).unwrap()
            && #[trigger] call_ensures(check, (k, p, s), c)
}

/// What checking `d` may give when its identity document names `identity`
/// (`None`: it could not be had).
pub open spec fn root_verify_outcome<C: Fn(&[u8; 32], &RootDocument, &Vec<u8>) -> bool>(
    check: C,
    identity: Option<Seq<char>>,
    d: RootDocumentView,
    r: Result<(), Error>,
) -> bool {
    match identity {
        None => r == Err::<(), Error>(Error::IdentityInvalid),
        Some(did) => if key_of_did(did) is None {
            r == Err::<(), Error>(Error::PublicKeyInvalid)
        } else if d.signature is None {
            r == Err::<(), Error>(Error::InvalidSignature)
        } else if bs58_decoded(d.signature.unwrap()) is None {
            r == Err::<(), Error>(Error::Bs58Error)
        } else {
            (r is Ok && root_checked(check, did, d, true)) || (r == Err::<(), Error>(Error::InvalidSignature)
                && root_checked(check, did, d, false))
        },
    }
}

/// `check`, given the key of `did`, accepts every signature `signer` makes,
/// for the document it was made for.
pub open spec fn accepts_root_signatures_of<
    S: Fn(&RootDocument) -> Vec<u8>,
    C: Fn(&[u8; 32], &RootDocument, &Vec<u8>) -> bool,
>(signer: S, check: C, did: Seq<char>) -> bool {
    forall|p: &RootDocument, sig: Vec<u8>, k: &[u8; 32], q: &RootDocument, s: &Vec<u8>, c: bool|
        #![trigger call_ensures(signer, (p,), sig), call_ensures(check, (k, q, s), c)]
        call_ensures(signer, (p,), sig) && k@ == key_of_did(did).unwrap() && q@ == p@ && s@ == sig@ && call_ensures(
            check,
            (k, q, s),
            c,
        ) ==> c
}

/// A root document signed by `signer` checks out against the identity
/// `did` (a valid key) with a `check` that accepts the signatures `signer`
/// makes for that key.
pub proof fn law_signed_root_checks_out<S: Fn(&RootDocument) -> Vec<u8>, C: Fn(&[u8; 32], &RootDocument, &Vec<u8>) -> bool>(
    signer: S,
    check: C,
    did: Seq<char>,
    before: RootDocumentView,
    now: i64,
    d: RootDocumentView,
    r: Result<(), Error>,
)
    requires
        root_signed_by(signer, before, now, d),
        key_of_did(did) is Some,
        accepts_root_signatures_of(signer, check, did),
        root_verify_outcome(check, Some(did), d, r),
    ensures
        r is Ok,
{
    let stamped = RootDocumentView { modified: now, signature: None, ..before };
    let (p, sig) = choose|p: &RootDocument, sig: Vec<u8>|
        p@ == stamped && #[trigger] call_ensures(signer, (p,), sig) && d == RootDocumentView {
            signature: Some(bs58_encoded(sig@)),
            ..stamped
        } && bs58_decoded(bs58_encoded(sig@)) == Some(sig@);
    assert(root_unsigned(d) == stamped);
    if root_checked(check, did, d, false) {
        let (k, q, s) = choose|k: &[u8; 32], q: &RootDocument, s: &Vec<u8>|
            k@ == key_of_did(did).unwrap() && q@ == root_unsigned(d) && s@ == bs58_decoded(d.signature.unwrap()).unwrap()
                && #[trigger] call_ensures(check, (k, q, s), false);
        assert(call_ensures(signer, (p,), sig) && call_ensures(check, (k, q, s), false));
    }
}

fn copy_opt(o: &Option<String>) -> (r: Option<String>)
    ensures
        opt_view(r) == opt_view(*o),
{
    match o {
        Some(s) => Some(s.clone()),
        None => None,
    }
}

impl RootDocument {
    /// The document without its signature.
    pub fn unsigned(&self) -> (r: Self)
        ensures
            r@ == root_unsigned(self@),
    {
        RootDocument {
            identity: self.identity.clone(),
            created: self.created,
            modified: self.modified,
            friends: copy_opt(&self.friends),
            blocks: copy_opt(&self.blocks),
            block_by: copy_opt(&self.block_by),
            request: copy_opt(&self.request),
            conversations: copy_opt(&self.conversations),
            communities: copy_opt(&self.communities),
            keystore: copy_opt(&self.keystore),
            file_index: copy_opt(&self.file_index),
            status: self.status,
            signature: None,
        }
    }

    /// Signs the document at time `now`: any signature is dropped, the
    /// modification date becomes `now`, and the signature is the base58 text
    /// of what `signer` gives for the document so stamped.
    pub fn sign_at<S: Fn(&RootDocument) -> Vec<u8>>(self, now: i64, signer: &S) -> (r: Result<Self, Error>)
        requires
            forall|p: &RootDocument| call_requires(*signer, (p,)),
        ensures
            r matches Ok(d) && root_signed_by(*signer, self@, now, d@),
    {
        let mut doc = self;
        doc.signature = None;
        doc.modified = now;
        let sig = signer(&doc);
        doc.signature = Some(bs58_encode(sig.as_slice()));
        Ok(doc)
    }

    /// Signs the document now (see `sign_at`).
    pub fn sign<S: Fn(&RootDocument) -> Vec<u8>>(self, signer: &S) -> (r: Result<Self, Error>)
        requires
            forall|p: &RootDocument| call_requires(*signer, (p,)),
        ensures
            r matches Ok(d) && exists|now: i64| root_signed_by(*signer, self@, now, d@),
    {
        let now = now_nanos();
        self.sign_at(now, signer)
    }

    /// Checks the signature against the key of `identity`, the DID of the
    /// identity document the root points to (`None` when that document
    /// could not be had).
    pub fn verify<C: Fn(&[u8; 32], &RootDocument, &Vec<u8>) -> bool>(
        &self,
        identity: &Option<String>,
        check: &C,
    ) -> (r: Result<(), Error>)
        requires
            forall|k: &[u8; 32], p: &RootDocument, s: &Vec<u8>| call_requires(*check, (k, p, s)),
        ensures
            root_verify_outcome(*check, opt_view(*identity), self@, r),
    {
        let did = match identity {
            Some(d) => d,
            None => {
                return Err(Error::IdentityInvalid);
            },
        };
        let key = match DIDEd25519Reference::try_from_did(did) {
            Some(k) => k,
            None => {
                return Err(Error::PublicKeyInvalid);
            },
        };
        let signature = match &self.signature {
            Some(s) => s,
            None => {
                return Err(Error::InvalidSignature);
            },
        };
        let payload = self.unsigned();
        let sig = match bs58_decode(signature.as_str()) {
            Some(b) => b,
            None => {
                return Err(Error::Bs58Error);
            },
        };
        if check(&key.0, &payload, &sig) {
            Ok(())
        } else {
            Err(Error::InvalidSignature)
        }
    }
}

} // verus!
