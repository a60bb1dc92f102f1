//! Identity documents: an identity's username, short id, DID, status message
//! and metadata, the checks a document must pass before it is trusted, and
//! what its signature covers.
//!
//! A DID here is its `did:key` text: `did:key:` followed by the key's
//! fingerprint. Serialising a document and checking or making an Ed25519
//! signature belong to the caller's key material; they are handed in as
//! closures, and are told exactly which document to serialise.
use crate::clock::now_nanos;
use crate::codec::{bs58_decode, bs58_decoded, bs58_encode, bs58_encoded};
use crate::error::{is_length_err, is_length_error, Error};
use crate::limits::{MAX_STATUS_LENGTH, MAX_USERNAME_LENGTH, MIN_USERNAME_LENGTH, SHORT_ID_SIZE};
use crate::page::opt_view;
use vstd::prelude::*;
use vstd::utf8::encode_utf8;

verus! {

#[derive(PartialEq, Eq, Structural, Clone, Copy, Debug)]
pub enum IdentityDocumentVersion {
    V0,
}

/// The kind of device an identity last used.
#[derive(PartialEq, Eq, Structural, Clone, Copy, Debug)]
pub enum Platform {
    Desktop,
    Mobile,
    Web,
    Unknown,
}

/// An identity's presence.
#[derive(PartialEq, Eq, Structural, Clone, Copy, Debug)]
pub enum IdentityStatus {
    Online,
    Away,
    Busy,
    Offline,
}

/// What an identity shows besides its name: the CIDs (as text) of its
/// picture and banner, its platform and its presence. A signature does not
/// cover it.
#[derive(Debug)]
pub struct IdentityMetadata {
    pub profile_picture: Option<String>,
    pub profile_banner: Option<String>,
    pub platform: Option<Platform>,
    pub status: Option<IdentityStatus>,
}

pub struct MetadataView {
    pub profile_picture: Option<Seq<char>>,
    pub profile_banner: Option<Seq<char>>,
    pub platform: Option<Platform>,
    pub status: Option<IdentityStatus>,
}

impl View for IdentityMetadata {
    type V = MetadataView;

    open spec fn view(&self) -> MetadataView {
        MetadataView {
            profile_picture: opt_view(self.profile_picture),
            profile_banner: opt_view(self.profile_banner),
            platform: self.platform,
            status: self.status,
        }
    }
}

/// Metadata with nothing set.
pub open spec fn empty_metadata() -> MetadataView {
    MetadataView { profile_picture: None, profile_banner: None, platform: None, status: None }
}

fn copy_opt_string(o: &Option<String>) -> (r: Option<String>)
    ensures
        opt_view(r) == opt_view(*o),
{
    match o {
        Some(s) => Some(s.clone()),
        None => None,
    }
}

/// The number of bytes of a text in UTF-8.
pub fn text_byte_len(s: &String) -> (n: usize)
    ensures
        n == byte_len(s@),
{
    s.as_str().as_bytes().len()
}

fn opt_string_eq(a: &Option<String>, b: &Option<String>) -> (r: bool)
    ensures
        r == (opt_view(*a) == opt_view(*b)),
{
    match (a, b) {
        (Some(x), Some(y)) => *x == *y,
        (None, None) => true,
        _ => false,
    }
}

impl IdentityMetadata {
    /// Metadata with nothing set.
    pub fn new() -> (r: Self)
        ensures
            r@ == empty_metadata(),
    {
        IdentityMetadata { profile_picture: None, profile_banner: None, platform: None, status: None }
    }

    pub fn copy(&self) -> (r: Self)
        ensures
            r@ == self@,
    {
        IdentityMetadata {
            profile_picture: copy_opt_string(&self.profile_picture),
            profile_banner: copy_opt_string(&self.profile_banner),
            platform: self.platform,
            status: self.status,
        }
    }

    /// Whether two metadata are the same in every field.
    pub fn same(&self, other: &Self) -> (b: bool)
        ensures
            b == (self@ == other@),
    {
        let platform_eq = match (self.platform, other.platform) {
            (Some(x), Some(y)) => x == y,
            (None, None) => true,
            _ => false,
        };
        let status_eq = match (self.status, other.status) {
            (Some(x), Some(y)) => x == y,
            (None, None) => true,
            _ => false,
        };
        opt_string_eq(&self.profile_picture, &other.profile_picture) && opt_string_eq(
            &self.profile_banner,
            &other.profile_banner,
        ) && platform_eq && status_eq
    }
}

/// An identity's document. Dates are nanoseconds since the epoch; the
/// signature is base58 text.
#[derive(Debug)]
pub struct IdentityDocument {
    pub username: String,
    pub short_id: [u8; SHORT_ID_SIZE],
    pub did: String,
    pub created: i64,
    pub modified: i64,
    pub status_message: Option<String>,
    pub metadata: IdentityMetadata,
    pub version: IdentityDocumentVersion,
    pub signature: Option<String>,
}

pub struct IdentityDocumentView {
    pub username: Seq<char>,
    pub short_id: Seq<u8>,
    pub did: Seq<char>,
    pub created: i64,
    pub modified: i64,
    pub status_message: Option<Seq<char>>,
    pub metadata: MetadataView,
    pub version: IdentityDocumentVersion,
    pub signature: Option<Seq<char>>,
}

impl View for IdentityDocument {
    type V = IdentityDocumentView;

    open spec fn view(&self) -> IdentityDocumentView {
        IdentityDocumentView {
            username: self.username@,
            short_id: self.short_id@,
            did: self.did@,
            created: self.created,
            modified: self.modified,
            status_message: opt_view(self.status_message),
            metadata: self.metadata@,
            version: self.version,
            signature: opt_view(self.signature),
        }
    }
}

/// The number of bytes of a text in UTF-8.
pub open spec fn byte_len(s: Seq<char>) -> nat {
    encode_utf8(s).len()
}

/// A DID's text is `did:key:` (8 bytes) and a fingerprint of at least
/// `SHORT_ID_SIZE` bytes.
pub open spec fn did_well_formed(did: Seq<char>) -> bool {
    byte_len(did) >= 8 + SHORT_ID_SIZE
}

/// The short id of a DID: the last `SHORT_ID_SIZE` bytes of its fingerprint,
/// which are the last bytes of its text.
pub open spec fn spec_short_id(did: Seq<char>) -> Seq<u8> {
    let b = encode_utf8(did);
    b.subrange(b.len() - SHORT_ID_SIZE, b.len() as int)
}

/// What a signature covers: the document with its metadata blanked out and
/// no signature.
pub open spec fn unsigned_view(d: IdentityDocumentView) -> IdentityDocumentView {
    IdentityDocumentView { metadata: empty_metadata(), signature: None, ..d }
}

/// The checks a document passes before its signature is looked at: a
/// username of `MIN_USERNAME_LENGTH..=MAX_USERNAME_LENGTH` bytes, the short
/// id of its DID, and a status message of at most `MAX_STATUS_LENGTH` bytes.
pub open spec fn fields_valid(d: IdentityDocumentView) -> bool {
    &&& MIN_USERNAME_LENGTH <= byte_len(d.username) <= MAX_USERNAME_LENGTH
    &&& d.short_id == spec_short_id(d.did)
    &&& match d.status_message {
        Some(s) => byte_len(s) <= MAX_STATUS_LENGTH,
        None => true,
    }
}

/// The document's fields are valid and its signature is base58 text: the
/// signature check is what decides.
pub open spec fn reaches_check(d: IdentityDocumentView) -> bool {
    &&& fields_valid(d)
    &&& d.signature matches Some(s)
    &&& bs58_decoded(s) is Some
}

/// The signature's bytes.
pub open spec fn signature_bytes(d: IdentityDocumentView) -> Seq<u8> {
    bs58_decoded(d.signature.unwrap()).unwrap()
}

/// `r` is what checking the document gives, `sig_ok` being what the
/// signature check said (when it is asked).
pub open spec fn verify_result(d: IdentityDocumentView, sig_ok: bool, r: Result<(), Error>) -> bool {
    let ulen = byte_len(d.username);
    if ulen == 0 {
        r == Err::<(), Error>(Error::IdentityInvalid)
    } else if ulen < MIN_USERNAME_LENGTH || ulen > MAX_USERNAME_LENGTH {
        r matches Err(e) && is_length_error(
            e,
            "username"@,
            ulen as usize,
            Some(MIN_USERNAME_LENGTH),
            Some(MAX_USERNAME_LENGTH),
        )
    } else if d.short_id != spec_short_id(d.did) {
        r == Err::<(), Error>(Error::IdentityInvalid)
    } else if d.status_message matches Some(s) && byte_len(s) > MAX_STATUS_LENGTH {
        r matches Err(e) && is_length_error(
            e,
            "identity status message"@,
            byte_len(d.status_message.unwrap()) as usize,
            None,
            Some(MAX_STATUS_LENGTH),
        )
    } else if d.signature is None {
        r == Err::<(), Error>(Error::InvalidSignature)
    } else if bs58_decoded(d.signature.unwrap()) is None {
        r == Err::<(), Error>(Error::Bs58Error)
    } else if sig_ok {
        r is Ok
    } else {
        r == Err::<(), Error>(Error::InvalidSignature)
    }
}

/// `check`, asked about the unsigned form of `d` and its signature's bytes,
/// may answer `c`.
pub open spec fn checked<G: Fn(&IdentityDocument, &Vec<u8>) -> bool>(check: G, d: IdentityDocumentView, c: bool) -> bool {
    exists|p: &IdentityDocument, s: &Vec<u8>|
        p@ == unsigned_view(d) && s@ == signature_bytes(d) && #[trigger] call_ensures(check, (p, s), c)
}

/// What checking `d` may give, `check` being asked about its signature only
/// when its fields are valid and its signature is base58 text.
pub open spec fn verify_outcome<G: Fn(&IdentityDocument, &Vec<u8>) -> bool>(
    check: G,
    d: IdentityDocumentView,
    r: Result<(), Error>,
) -> bool {
    if reaches_check(d) {
        (r is Ok && checked(check, d, true)) || (r == Err::<(), Error>(Error::InvalidSignature) && checked(
            check,
            d,
            false,
        ))
    } else {
        verify_result(d, false, r)
    }
}

/// What the store's check of an identity gives: a username of 4 to 64
/// characters, a short id that is the tail of the DID's fingerprint, and a
/// status message of fewer than 512 characters.
pub open spec fn validation_result(d: IdentityDocumentView, r: Result<(), Error>) -> bool {
    let ulen = d.username.len();
    if ulen < 4 || ulen > 64 {
        is_length_err(r, "username"@, ulen as usize, Some(4usize), Some(64usize))
    } else if d.short_id != spec_short_id(d.did) {
        r == Err::<(), Error>(Error::PublicKeyInvalid)
    } else if d.status_message matches Some(s) && s.len() >= 512 {
        is_length_err(r, "status"@, d.status_message.unwrap().len() as usize, None, Some(512usize))
    } else {
        r is Ok
    }
}


/// `check` accepts every signature `signer` makes, for the document it was
/// made for.
pub open spec fn accepts_signatures_of<S: Fn(&IdentityDocument) -> Vec<u8>, G: Fn(&IdentityDocument, &Vec<u8>) -> bool>(
    signer: S,
    check: G,
) -> bool {
    forall|p: &IdentityDocument, sig: Vec<u8>, q: &IdentityDocument, s: &Vec<u8>, c: bool|
        #![trigger call_ensures(signer, (p,), sig), call_ensures(check, (q, s), c)]
        call_ensures(signer, (p,), sig) && q@ == p@ && s@ == sig@ && call_ensures(check, (q, s), c) ==> c
}

/// A document with valid fields, signed by `signer`, checks out with a
/// `check` that accepts the signatures `signer` makes.
pub proof fn law_signed_document_checks_out<
    S: Fn(&IdentityDocument) -> Vec<u8>,
    G: Fn(&IdentityDocument, &Vec<u8>) -> bool,
>(signer: S, check: G, before: IdentityDocumentView, now: i64, d: IdentityDocumentView, r: Result<(), Error>)
    requires
        signed_by(signer, before, now, d),
        fields_valid(d),
        accepts_signatures_of(signer, check),
        verify_outcome(check, d, r),
    ensures
        r is Ok,
{
    let stamped = IdentityDocumentView { modified: now, ..before };
    let (p, sig) = choose|p: &IdentityDocument, sig: Vec<u8>|
        p@ == unsigned_view(stamped) && #[trigger] call_ensures(signer, (p,), sig) && d == IdentityDocumentView {
            signature: Some(bs58_encoded(sig@)),
            ..stamped
        } && bs58_decoded(bs58_encoded(sig@)) == Some(sig@);
    assert(reaches_check(d));
    assert(unsigned_view(d) == unsigned_view(stamped));
    assert(signature_bytes(d) == sig@);
    if checked(check, d, false) {
        let (q, s) = choose|q: &IdentityDocument, s: &Vec<u8>|
            q@ == unsigned_view(d) && s@ == signature_bytes(d) && #[trigger] call_ensures(check, (q, s), false);
        assert(call_ensures(signer, (p,), sig) && call_ensures(check, (q, s), false));
    }
}

/// What `different` may answer of `a` and a newer `b`: a change only when
/// `b` is of the same identity, shows a change and checks out.
pub open spec fn differs<G: Fn(&IdentityDocument, &Vec<u8>) -> bool>(
    check: G,
    a: IdentityDocumentView,
    b: IdentityDocumentView,
    d: bool,
) -> bool {
    &&& d ==> same_identity(a, b) && shows_change(a, b) && reaches_check(b) && checked(check, b, true)
    &&& same_identity(a, b) && shows_change(a, b) && reaches_check(b) && !d ==> checked(check, b, false)
}

/// Two documents are of the same identity: same DID and short id.
pub open spec fn same_identity(a: IdentityDocumentView, b: IdentityDocumentView) -> bool {
    a.did == b.did && a.short_id == b.short_id
}

/// What a newer document may change: username, status message, metadata.
pub open spec fn shows_change(a: IdentityDocumentView, b: IdentityDocumentView) -> bool {
    a.username != b.username || a.status_message != b.status_message || a.metadata != b.metadata
}

/// `d` is `before` stamped at `now` and signed with the bytes `signer` gave
/// for its unsigned form; the metadata is kept.
pub open spec fn signed_by<S: Fn(&IdentityDocument) -> Vec<u8>>(
    signer: S,
    before: IdentityDocumentView,
    now: i64,
    d: IdentityDocumentView,
) -> bool {
    let stamped = IdentityDocumentView { modified: now, ..before };
    exists|p: &IdentityDocument, sig: Vec<u8>|
        p@ == unsigned_view(stamped) && #[trigger] call_ensures(signer, (p,), sig) && d == IdentityDocumentView {
            signature: Some(bs58_encoded(sig@)),
            ..stamped
        } && bs58_decoded(bs58_encoded(sig@)) == Some(sig@)
}

impl IdentityDocument {
    pub fn copy(&self) -> (r: Self)
        ensures
            r@ == self@,
    {
        IdentityDocument {
            username: self.username.clone(),
            short_id: self.short_id,
            did: self.did.clone(),
            created: self.created,
            modified: self.modified,
            status_message: copy_opt_string(&self.status_message),
            metadata: self.metadata.copy(),
            version: self.version,
            signature: copy_opt_string(&self.signature),
        }
    }

    /// Whether two documents are of the same identity (the documents'
    /// equality: DID and short id).
    pub fn same(&self, other: &Self) -> (b: bool)
        ensures
            b == same_identity(self@, other@),
    {
        if self.did != other.did {
            return false;
        }
        let mut i: usize = 0;
        while i < SHORT_ID_SIZE
            invariant
                i <= SHORT_ID_SIZE,
                forall|k: int| 0 <= k < i ==> self.short_id@[k] == other.short_id@[k],
            decreases SHORT_ID_SIZE - i,
        {
            if self.short_id[i] != other.short_id[i] {
                return false;
            }
            i += 1;
        }
        assert(self.short_id@ =~= other.short_id@);
        true
    }

    /// The document a signature covers: metadata blanked out, no signature.
    pub fn unsigned(&self) -> (r: Self)
        ensures
            r@ == unsigned_view(self@),
    {
        IdentityDocument {
            username: self.username.clone(),
            short_id: self.short_id,
            did: self.did.clone(),
            created: self.created,
            modified: self.modified,
            status_message: copy_opt_string(&self.status_message),
            metadata: IdentityMetadata::new(),
            version: self.version,
            signature: None,
        }
    }

    fn short_id_matches(&self) -> (b: bool)
        requires
            did_well_formed(self.did@),
        ensures
            b == (self.short_id@ == spec_short_id(self.did@)),
    {
        let bytes = self.did.as_str().as_bytes();
        let n = bytes.len();
        let ghost want = spec_short_id(self.did@);
        let mut i: usize = 0;
        while i < SHORT_ID_SIZE
            invariant
                i <= SHORT_ID_SIZE,
                bytes@ == encode_utf8(self.did@),
                n == bytes@.len(),
                n >= 8 + SHORT_ID_SIZE,
                want == bytes@.subrange(n - SHORT_ID_SIZE, n as int),
                forall|k: int| 0 <= k < i ==> self.short_id@[k] == want[k],
            decreases SHORT_ID_SIZE - i,
        {
            if self.short_id[i] != bytes[n - SHORT_ID_SIZE + i] {
                assert(want[i as int] == bytes@[n - SHORT_ID_SIZE + i]);
                return false;
            }
            i += 1;
        }
        assert(self.short_id@ =~= want);
        true
    }

    /// Checks the document: a username of `MIN_USERNAME_LENGTH` to
    /// `MAX_USERNAME_LENGTH` bytes (an empty one is an invalid identity), a
    /// short id that is the tail of the DID's fingerprint, a status message
    /// of at most `MAX_STATUS_LENGTH` bytes, and a base58 signature that
    /// `check` accepts for the unsigned document.
    pub fn verify<G: Fn(&IdentityDocument, &Vec<u8>) -> bool>(&self, check: &G) -> (r: Result<(), Error>)
        requires
            did_well_formed(self.did@),
            forall|p: &IdentityDocument, s: &Vec<u8>| call_requires(*check, (p, s)),
        ensures
            verify_outcome(*check, self@, r),
    {
        let ulen = text_byte_len(&self.username);
        if ulen == 0 {
            return Err(Error::IdentityInvalid);
        }
        if ulen < MIN_USERNAME_LENGTH || ulen > MAX_USERNAME_LENGTH {
            return Err(
                Error::InvalidLength {
                    context: String::from_str("username"),
                    current: ulen,
                    minimum: Some(MIN_USERNAME_LENGTH),
                    maximum: Some(MAX_USERNAME_LENGTH),
                },
            );
        }
        if !self.short_id_matches() {
            return Err(Error::IdentityInvalid);
        }
        if let Some(status) = &self.status_message {
            let slen = text_byte_len(status);
            if slen > MAX_STATUS_LENGTH {
                return Err(
                    Error::InvalidLength {
                        context: String::from_str("identity status message"),
                        current: slen,
                        minimum: None,
                        maximum: Some(MAX_STATUS_LENGTH),
                    },
                );
            }
        }
        let signature = match &self.signature {
            Some(s) => s,
            None => {
                return Err(Error::InvalidSignature);
            },
        };
        let signature_bytes = match bs58_decode(signature.as_str()) {
            Some(b) => b,
            None => {
                return Err(Error::Bs58Error);
            },
        };
        let payload = self.unsigned();
        let ok = check(&payload, &signature_bytes);
        if ok {
            Ok(())
        } else {
            Err(Error::InvalidSignature)
        }
    }

    /// Whether `other` is a newer, valid document of the same identity that
    /// shows a change: same DID and short id, a document that checks out,
    /// and a different username, status message or metadata.
    pub fn different<G: Fn(&IdentityDocument, &Vec<u8>) -> bool>(&self, other: &Self, check: &G) -> (b: bool)
        requires
            did_well_formed(other.did@),
            forall|p: &IdentityDocument, s: &Vec<u8>| call_requires(*check, (p, s)),
        ensures
            differs(*check, self@, other@, b),
    {
        if !self.same(other) {
            return false;
        }
        let v = other.verify(check);
        if v.is_err() {
            return false;
        }
        proof {
            if !reaches_check(other@) {
                assert(verify_result(other@, false, v));
            }
        }
        !(self.username == other.username) || !opt_string_eq(&self.status_message, &other.status_message)
            || !self.metadata.same(&other.metadata)
    }

    /// The store's check of an identity it is handed: the username counts
    /// 4 to 64 characters, the short id is the tail of the DID's fingerprint
    /// (else the key is invalid), and a status message counts fewer than
    /// 512 characters.
    pub fn validate_identity(&self) -> (r: Result<(), Error>)
        requires
            did_well_formed(self.did@),
        ensures
            validation_result(self@, r),
    {
        let ulen = self.username.as_str().unicode_len();
        if ulen < 4 || ulen > 64 {
            return Err(
                Error::InvalidLength {
                    context: String::from_str("username"),
                    current: ulen,
                    minimum: Some(4),
                    maximum: Some(64),
                },
            );
        }
        if !self.short_id_matches() {
            return Err(Error::PublicKeyInvalid);
        }
        if let Some(status) = &self.status_message {
            let slen = status.as_str().unicode_len();
            if slen >= 512 {
                return Err(
                    Error::InvalidLength {
                        context: String::from_str("status"),
                        current: slen,
                        minimum: None,
                        maximum: Some(512),
                    },
                );
            }
        }
        Ok(())
    }

    /// Signs the document at time `now`: the modification date becomes
    /// `now`, and the signature the base58 text of what `signer` gives for
    /// the unsigned document. The metadata is kept.
    pub fn sign_at<S: Fn(&IdentityDocument) -> Vec<u8>>(self, now: i64, signer: &S) -> (r: Result<Self, Error>)
        requires
            forall|p: &IdentityDocument| call_requires(*signer, (p,)),
        ensures
            r matches Ok(d) && signed_by(*signer, self@, now, d@),
    {
        let mut doc = self;
        doc.modified = now;
        let payload = doc.unsigned();
        let sig = signer(&payload);
        let text = bs58_encode(sig.as_slice());
        doc.signature = Some(text);
        Ok(doc)
    }

    /// Signs the document now (see `sign_at`).
    pub fn sign<S: Fn(&IdentityDocument) -> Vec<u8>>(self, signer: &S) -> (r: Result<Self, Error>)
        requires
            forall|p: &IdentityDocument| call_requires(*signer, (p,)),
        ensures
            r matches Ok(d) && exists|now: i64| signed_by(*signer, self@, now, d@),
    {
        let now = now_nanos();
        self.sign_at(now, signer)
    }
}

/// A newer document of the same identity, with valid fields and a
/// signature the check accepts, is told apart from the older one exactly
/// when its username, its status message or its metadata (picture, banner,
/// platform, presence) differ: a change of metadata alone counts.
pub proof fn law_change_is_told<G: Fn(&IdentityDocument, &Vec<u8>) -> bool>(
    check: G,
    a: IdentityDocumentView,
    b: IdentityDocumentView,
    d: bool,
)
    requires
        differs(check, a, b, d),
        same_identity(a, b),
        reaches_check(b),
        !checked(check, b, false),
    ensures
        a.metadata != b.metadata ==> d,
        a.username != b.username ==> d,
        a.status_message != b.status_message ==> d,
        d ==> a.username != b.username || a.status_message != b.status_message || a.metadata != b.metadata,
{
}

/// A document of another identity is never told as a change of this one.
pub proof fn law_other_identity_is_no_change<G: Fn(&IdentityDocument, &Vec<u8>) -> bool>(
    check: G,
    a: IdentityDocumentView,
    b: IdentityDocumentView,
    d: bool,
)
    requires
        differs(check, a, b, d),
        a.did != b.did || a.short_id != b.short_id,
    ensures
        !d,
{
}

} // verus!
