//! Message documents: who sent what, when, with which reactions and
//! attachments; the encrypted lines; and what a signature covers.
//!
//! Encryption, hashing and Ed25519 signing belong to the caller's key
//! material; they are handed in as closures. The closures are told exactly
//! what to encrypt or sign.
use crate::codec::{date_string, date_text, json_decode_lines, json_encode_lines, lines_of_json, strings_view};
use crate::did::{did_of_key, DIDEd25519Reference, MessageSignature};
use crate::error::{is_length_err, is_length_error, Error};
use crate::limits::{MAX_ATTACHMENT, MAX_MESSAGE_SIZE, MAX_REACTIONS};
use crate::selection::MessageMeta;
use crate::text::{lines_length, lines_value_length};
use vstd::prelude::*;
use vstd::utf8::encode_utf8;

verus! {

#[derive(PartialEq, Eq, Structural, Clone, Copy, Debug)]
pub enum MessageVersion {
    V0,
}

#[derive(PartialEq, Eq, Structural, Clone, Copy, Debug)]
pub enum MessageType {
    Message,
    Attachment,
    Event,
}

/// A file attached to a message.
pub struct FileAttachmentDocument {
    pub id: u128,
    pub name: String,
    pub size: usize,
    pub creation: i64,
    pub thumbnail: Option<String>,
    pub file_type: String,
    /// Where the file's data is, as text.
    pub data: String,
}

#[verifier::ext_equal]
pub struct AttachmentView {
    pub id: u128,
    pub name: Seq<char>,
    pub size: usize,
    pub creation: i64,
    pub thumbnail: Option<Seq<char>>,
    pub file_type: Seq<char>,
    pub data: Seq<char>,
}

impl View for FileAttachmentDocument {
    type V = AttachmentView;

    open spec fn view(&self) -> AttachmentView {
        AttachmentView {
            id: self.id,
            name: self.name@,
            size: self.size,
            creation: self.creation,
            thumbnail: match self.thumbnail {
                Some(t) => Some(t@),
                None => None,
            },
            file_type: self.file_type@,
            data: self.data@,
        }
    }
}

fn opt_string_eq(a: &Option<String>, b: &Option<String>) -> (r: bool)
    ensures
        r == (match (a, b) {
            (Some(x), Some(y)) => x@ == y@,
            (None, None) => true,
            _ => false,
        }),
{
    match (a, b) {
        (Some(x), Some(y)) => *x == *y,
        (None, None) => true,
        _ => false,
    }
}

impl FileAttachmentDocument {
    /// Whether two attachments are the same in every field.
    pub fn same(&self, other: &Self) -> (r: bool)
        ensures
            r == (self@ == other@),
    {
        self.id == other.id && self.name == other.name && self.size == other.size && self.creation
            == other.creation && opt_string_eq(&self.thumbnail, &other.thumbnail) && self.file_type
            == other.file_type && self.data == other.data
    }

    pub fn clone_attachment(&self) -> (r: Self)
        ensures
            r@ == self@,
    {
        FileAttachmentDocument {
            id: self.id,
            name: self.name.clone(),
            size: self.size,
            creation: self.creation,
            thumbnail: match &self.thumbnail {
                Some(t) => Some(t.clone()),
                None => None,
            },
            file_type: self.file_type.clone(),
            data: self.data.clone(),
        }
    }
}

/// A message document.
pub struct MessageDocument {
    pub id: u128,
    pub message_type: MessageType,
    pub conversation_id: u128,
    pub version: MessageVersion,
    pub sender: DIDEd25519Reference,
    /// Nanoseconds since the epoch.
    pub date: i64,
    /// Emoji, each with the identities that reacted with it, in order.
    pub reactions: Vec<(String, Vec<String>)>,
    pub attachments: Vec<FileAttachmentDocument>,
    pub modified: Option<i64>,
    pub pinned: bool,
    pub replied: Option<u128>,
    /// The encrypted JSON of the message's lines.
    pub message: Option<Vec<u8>>,
    pub signature: Option<MessageSignature>,
}

pub type ReactionsView = Seq<(Seq<char>, Seq<Seq<char>>)>;

#[verifier::ext_equal]
pub struct MessageDocumentView {
    pub id: u128,
    pub message_type: MessageType,
    pub conversation_id: u128,
    pub version: MessageVersion,
    pub sender: Seq<u8>,
    pub date: i64,
    pub reactions: ReactionsView,
    pub attachments: Seq<AttachmentView>,
    pub modified: Option<i64>,
    pub pinned: bool,
    pub replied: Option<u128>,
    pub message: Option<Seq<u8>>,
    pub signature: Option<Seq<u8>>,
}

pub open spec fn reactions_view(r: Seq<(String, Vec<String>)>) -> ReactionsView {
    Seq::new(r.len(), |i: int| (r[i].0@, strings_view(r[i].1@)))
}

pub open spec fn attachments_view(a: Seq<FileAttachmentDocument>) -> Seq<AttachmentView> {
    Seq::new(a.len(), |i: int| a[i]@)
}

impl View for MessageDocument {
    type V = MessageDocumentView;

    open spec fn view(&self) -> MessageDocumentView {
        MessageDocumentView {
            id: self.id,
            message_type: self.message_type,
            conversation_id: self.conversation_id,
            version: self.version,
            sender: self.sender.0@,
            date: self.date,
            reactions: reactions_view(self.reactions@),
            attachments: attachments_view(self.attachments@),
            modified: self.modified,
            pinned: self.pinned,
            replied: self.replied,
            message: match self.message {
                Some(m) => Some(m@),
                None => None,
            },
            signature: match self.signature {
                Some(s) => Some(s.0@),
                None => None,
            },
        }
    }
}

/// First position of the emoji among the reactions, or -1.
pub open spec fn emoji_index_from(r: ReactionsView, emoji: Seq<char>, i: int) -> int
    decreases r.len() - i,
{
    if i < 0 || i >= r.len() {
        -1
    } else if r[i].0 == emoji {
        i
    } else {
        emoji_index_from(r, emoji, i + 1)
    }
}

pub open spec fn emoji_index(r: ReactionsView, emoji: Seq<char>) -> int {
    emoji_index_from(r, emoji, 0)
}

/// The reactions once `reactor` reacts with `emoji`: last among the
/// emoji's reactors, a new emoji going last.
pub open spec fn with_reaction(rv: ReactionsView, emoji: Seq<char>, reactor: Seq<char>) -> ReactionsView {
    let k = emoji_index(rv, emoji);
    if k >= 0 {
        rv.update(k, (emoji, rv[k].1.push(reactor)))
    } else {
        rv.push((emoji, seq![reactor]))
    }
}

/// The reactions once `reactor` takes back `emoji`: the emoji goes when no
/// reactor is left.
pub open spec fn without_reaction(rv: ReactionsView, emoji: Seq<char>, reactor: Seq<char>) -> ReactionsView {
    let k = emoji_index(rv, emoji);
    let left = rv[k].1.remove(rv[k].1.index_of_first(reactor).unwrap());
    if left.len() == 0 {
        rv.remove(k)
    } else {
        rv.update(k, (emoji, left))
    }
}

/// What a signature covers, besides the attachments: the conversation id,
/// the message id, the sender's key, the date, the modification date, the
/// replied-to id, a place for the hash of the attachments (left empty here),
/// and the encrypted lines. Ids are their 16 big-endian bytes, dates their
/// UTF-8 text.
pub open spec fn spec_signing_fields(d: MessageDocumentView) -> Seq<Option<Seq<u8>>> {
    seq![
        Some(be_bytes(d.conversation_id)),
        Some(be_bytes(d.id)),
        Some(d.sender),
        Some(encode_utf8(date_text(d.date))),
        match d.modified {
            Some(t) => Some(encode_utf8(date_text(t))),
            None => None,
        },
        match d.replied {
            Some(r) => Some(be_bytes(r)),
            None => None,
        },
        None,
        d.message,
    ]
}

/// The UTF-8 bytes of each attachment's data, whose hash a signature covers.
pub open spec fn spec_attachment_data(d: MessageDocumentView) -> Seq<Seq<u8>> {
    Seq::new(d.attachments.len(), |i: int| encode_utf8(d.attachments[i].data))
}

/// What is handed to the signer or the signature check: the fields, and the
/// attachments' data. The hash that is signed is SHA-256 over the fields in
/// order, where the seventh field is the SHA-256 of the attachments' data.
pub struct SigningPayload {
    pub fields: Vec<Option<Vec<u8>>>,
    pub attachments: Vec<Vec<u8>>,
}

pub open spec fn payload_view(p: SigningPayload) -> (Seq<Option<Seq<u8>>>, Seq<Seq<u8>>) {
    (
        Seq::new(p.fields@.len(), |i: int| match p.fields@[i] {
            Some(v) => Some(v@),
            None => None,
        }),
        Seq::new(p.attachments@.len(), |i: int| p.attachments@[i]@),
    )
}

/// What checking a message may give (see `MessageDocument::verify`).
pub open spec fn message_verify_outcome<G: Fn(&[u8; 32], &SigningPayload, &[u8; 64]) -> Option<bool>>(
    check: G,
    d: MessageDocument,
    r: Result<(), Error>,
) -> bool {
    match d.signature {
        None => r == Err::<(), Error>(Error::InvalidSignature),
        Some(sig) => exists|p: &SigningPayload, c: Option<bool>|
            payload_view(*p) == (spec_signing_fields(d@), spec_attachment_data(d@)) && #[trigger] call_ensures(
                check,
                (&d.sender.0, p, &sig.0),
                c,
            ) && match c {
                None => r == Err::<(), Error>(Error::PublicKeyInvalid),
                Some(false) => r == Err::<(), Error>(Error::InvalidMessage),
                Some(true) => if d@.reactions.len() > MAX_REACTIONS {
                    r matches Err(e) && is_length_error(
                        e,
                        "reactions"@,
                        d@.reactions.len() as usize,
                        None,
                        Some(MAX_REACTIONS),
                    )
                } else if d@.attachments.len() > MAX_ATTACHMENT {
                    r matches Err(e) && is_length_error(
                        e,
                        "attachments"@,
                        d@.attachments.len() as usize,
                        None,
                        Some(MAX_ATTACHMENT),
                    )
                } else {
                    r is Ok
                },
            },
    }
}

/// What opening a message's lines with `open` may give (see
/// `MessageDocument::message`).
pub open spec fn lines_outcome<F: Fn(&[u8]) -> Result<Vec<u8>, Error>>(
    open: F,
    d: MessageDocument,
    r: Result<Vec<String>, Error>,
) -> bool {
    match d.message {
        None => r == Err::<Vec<String>, Error>(Error::MessageNotFound),
        Some(m) => exists|x: &[u8], o: Result<Vec<u8>, Error>|
            x@ == m@ && #[trigger] call_ensures(open, (x,), o) && match o {
                Err(e) => r == Err::<Vec<String>, Error>(e),
                Ok(plain) => match lines_of_json(plain@) {
                    Some(lines) => r matches Ok(v) && strings_view(v@) == lines,
                    None => r == Err::<Vec<String>, Error>(Error::SerdeJsonError),
                },
            },
    }
}

/// What signing `d` as `own` at `now` may give: only the sender signs; the
/// modification date becomes `now` and the signature what `signer` gives
/// for the signed fields, which must be 64 bytes.
pub open spec fn sign_outcome<S: Fn(&SigningPayload) -> Vec<u8>>(
    signer: S,
    d: MessageDocument,
    own: Seq<char>,
    now: i64,
    r: Result<MessageDocument, Error>,
) -> bool {
    if did_of_key(d.sender.0@) != own {
        r == Err::<MessageDocument, Error>(Error::PublicKeyInvalid)
    } else {
        exists|p: &SigningPayload, s: Vec<u8>|
            payload_view(*p) == (
                spec_signing_fields(MessageDocumentView { modified: Some(now), ..d@ }),
                spec_attachment_data(d@),
            ) && #[trigger] call_ensures(signer, (p,), s) && if s@.len() == 64 {
                r matches Ok(x) && x@ == (MessageDocumentView { modified: Some(now), signature: Some(s@), ..d@ })
            } else {
                r == Err::<MessageDocument, Error>(Error::InvalidConversion)
            }
    }
}

/// The view of an optional byte slice.
pub open spec fn opt_slice_view(n: Option<&[u8]>) -> Option<Seq<u8>> {
    match n {
        Some(x) => Some(x@),
        None => None,
    }
}

/// `d` with new encrypted content `data` (none when empty), modified at
/// `modified`.
pub open spec fn with_content(d: MessageDocument, modified: i64, data: Vec<u8>) -> MessageDocument {
    MessageDocument { modified: Some(modified), message: if data@.len() == 0 { None } else { Some(data) }, ..d }
}

/// What sealing an edited message `d` may give: this node's own edit,
/// without a signature, is signed at `now`; another sender's comes with a
/// signature of 64 bytes that `check` must accept. Anything else is
/// refused.
pub open spec fn sealed_edit<
    S: Fn(&SigningPayload) -> Vec<u8>,
    G: Fn(&[u8; 32], &SigningPayload, &[u8; 64]) -> Option<bool>,
>(
    signer: S,
    check: G,
    d: MessageDocument,
    own: Seq<char>,
    now: i64,
    signature: Option<Seq<u8>>,
    r: Result<MessageDocument, Error>,
) -> bool {
    let is_own = did_of_key(d.sender.0@) == own;
    match signature {
        None => if is_own {
            sign_outcome(signer, d, own, now, r)
        } else {
            r == Err::<MessageDocument, Error>(Error::InvalidMessage)
        },
        Some(sig) => if is_own {
            r == Err::<MessageDocument, Error>(Error::InvalidMessage)
        } else if sig.len() != 64 {
            r == Err::<MessageDocument, Error>(Error::InvalidConversion)
        } else {
            exists|a: [u8; 64], v: Result<(), Error>|
                a@ == sig && #[trigger] message_verify_outcome(
                    check,
                    MessageDocument { signature: Some(MessageSignature(a)), ..d },
                    v,
                ) && match v {
                    Ok(()) => r == Ok::<MessageDocument, Error>(
                        MessageDocument { signature: Some(MessageSignature(a)), ..d },
                    ),
                    Err(e) => r == Err::<MessageDocument, Error>(e),
                }
        },
    }
}

/// What editing `d` with `lines` may give: lines over `MAX_MESSAGE_SIZE`
/// characters are refused, a document without content has no nonce, a
/// nonce equal to the current one is refused; otherwise the JSON of the
/// lines is encrypted with the nonce and the edit sealed.
pub open spec fn edit_outcome<
    E: Fn(&[u8], Option<&[u8]>) -> Result<Vec<u8>, Error>,
    S: Fn(&SigningPayload) -> Vec<u8>,
    G: Fn(&[u8; 32], &SigningPayload, &[u8; 64]) -> Option<bool>,
>(
    encrypt: E,
    signer: S,
    check: G,
    d: MessageDocument,
    own: Seq<char>,
    now: i64,
    modified: i64,
    lines: Seq<Seq<char>>,
    signature: Option<Seq<u8>>,
    nonce: Option<Seq<u8>>,
    r: Result<MessageDocument, Error>,
) -> bool {
    if lines.len() > 0 && lines_length(lines) > MAX_MESSAGE_SIZE {
        r matches Err(e) && is_length_error(e, "message"@, lines_length(lines) as usize, None, Some(MAX_MESSAGE_SIZE))
    } else {
        match d.message {
            None => r == Err::<MessageDocument, Error>(Error::MessageNotFound),
            Some(m) => if nonce == Some(m@.subrange(m@.len() - 12, m@.len() as int)) {
                r == Err::<MessageDocument, Error>(Error::InvalidMessage)
            } else {
                exists|x: &[u8], n: Option<&[u8]>, c: Result<Vec<u8>, Error>|
                    x@ == crate::codec::json_of_lines(lines) && opt_slice_view(n) == nonce && #[trigger] call_ensures(
                        encrypt,
                        (x, n),
                        c,
                    ) && match c {
                        Err(e) => r == Err::<MessageDocument, Error>(e),
                        Ok(data) => sealed_edit(signer, check, with_content(d, modified, data), own, now, signature, r),
                    }
            },
        }
    }
}

/// `check`, given the key `key`, accepts every signature `signer` makes,
/// for the payload it was made for.
pub open spec fn accepts_message_signatures_of<
    S: Fn(&SigningPayload) -> Vec<u8>,
    G: Fn(&[u8; 32], &SigningPayload, &[u8; 64]) -> Option<bool>,
>(signer: S, check: G, key: Seq<u8>) -> bool {
    forall|p: &SigningPayload, sig: Vec<u8>, k: &[u8; 32], q: &SigningPayload, a: &[u8; 64], c: Option<bool>|
        #![trigger call_ensures(signer, (p,), sig), call_ensures(check, (k, q, a), c)]
        call_ensures(signer, (p,), sig) && k@ == key && payload_view(*q) == payload_view(*p) && a@ == sig@
            && call_ensures(check, (k, q, a), c) ==> c == Some(true)
}

/// A message signed by `signer` checks out with a `check` that accepts the
/// signatures `signer` makes for the sender's key, as long as it holds at
/// most `MAX_REACTIONS` reactions and `MAX_ATTACHMENT` attachments.
pub proof fn law_signed_message_checks_out<
    S: Fn(&SigningPayload) -> Vec<u8>,
    G: Fn(&[u8; 32], &SigningPayload, &[u8; 64]) -> Option<bool>,
>(signer: S, check: G, d: MessageDocument, own: Seq<char>, now: i64, x: MessageDocument, r: Result<(), Error>)
    requires
        sign_outcome(signer, d, own, now, Ok(x)),
        accepts_message_signatures_of(signer, check, d.sender.0@),
        x@.reactions.len() <= MAX_REACTIONS,
        x@.attachments.len() <= MAX_ATTACHMENT,
        message_verify_outcome(check, x, r),
    ensures
        r is Ok,
{
    let stamped = MessageDocumentView { modified: Some(now), ..d@ };
    let (p, sg) = choose|p: &SigningPayload, sg: Vec<u8>|
        payload_view(*p) == (spec_signing_fields(stamped), spec_attachment_data(d@)) && #[trigger] call_ensures(
            signer,
            (p,),
            sg,
        ) && x@ == (MessageDocumentView { modified: Some(now), signature: Some(sg@), ..d@ });
    assert(spec_signing_fields(x@) == spec_signing_fields(stamped));
    assert(spec_attachment_data(x@) == spec_attachment_data(d@));
    let sig = x.signature.unwrap();
    assert(sig.0@ == sg@);
    assert(x.sender.0@ == d.sender.0@);
    let (q, c) = choose|q: &SigningPayload, c: Option<bool>|
        payload_view(*q) == (spec_signing_fields(x@), spec_attachment_data(x@)) && #[trigger] call_ensures(
            check,
            (&x.sender.0, q, &sig.0),
            c,
        ) && match c {
            None => r == Err::<(), Error>(Error::PublicKeyInvalid),
            Some(false) => r == Err::<(), Error>(Error::InvalidMessage),
            Some(true) => if x@.reactions.len() > MAX_REACTIONS {
                r matches Err(e) && is_length_error(
                    e,
                    "reactions"@,
                    x@.reactions.len() as usize,
                    None,
                    Some(MAX_REACTIONS),
                )
            } else if x@.attachments.len() > MAX_ATTACHMENT {
                r matches Err(e) && is_length_error(
                    e,
                    "attachments"@,
                    x@.attachments.len() as usize,
                    None,
                    Some(MAX_ATTACHMENT),
                )
            } else {
                r is Ok
            },
        };
    assert(call_ensures(signer, (p,), sg) && call_ensures(check, (&x.sender.0, q, &sig.0), c));
}

/// The 16 big-endian bytes of an id.
pub open spec fn be_bytes(x: u128) -> Seq<u8> {
    Seq::new(16, |k: int| ((x >> ((8 * (15 - k)) as u128)) & 0xffu128) as u8)
}

/// The 16 big-endian bytes of an id.
pub fn be_bytes_exec(x: u128) -> (r: Vec<u8>)
    ensures
        r@ == be_bytes(x),
{
    let mut r: Vec<u8> = Vec::new();
    let mut k: usize = 0;
    while k < 16
        invariant
            k <= 16,
            r@.len() == k,
            forall|j: int| 0 <= j < k ==> r@[j] == ((x >> ((8 * (15 - j)) as u128)) & 0xffu128) as u8,
        decreases 16 - k,
    {
        let shift: u128 = (8 * (15 - k)) as u128;
        r.push(((x >> shift) & 0xffu128) as u8);
        k += 1;
    }
    assert(r@ =~= be_bytes(x));
    r
}

pub(crate) fn string_bytes(s: &String) -> (r: Vec<u8>)
    ensures
        r@ == encode_utf8(s@),
{
    s.as_str().as_bytes_vec()
}

pub(crate) fn clone_bytes(v: &Vec<u8>) -> (r: Vec<u8>)
    ensures
        r@ == v@,
{
    v.clone()
}

pub(crate) fn clone_strings(v: &Vec<String>) -> (r: Vec<String>)
    ensures
        strings_view(r@) == strings_view(v@),
{
    let mut r: Vec<String> = Vec::new();
    let mut i: usize = 0;
    while i < v.len()
        invariant
            i <= v@.len(),
            r@.len() == i,
            forall|k: int| 0 <= k < i ==> #[trigger] r@[k]@ == v@[k]@,
        decreases v@.len() - i,
    {
        r.push(v[i].clone());
        i += 1;
    }
    assert(strings_view(r@) =~= strings_view(v@));
    r
}

/// What a message reference says of a message.
pub struct MessageReference {
    pub id: u128,
    pub conversation_id: u128,
    pub date: i64,
    pub modified: Option<i64>,
    pub pinned: bool,
    pub replied: Option<u128>,
    pub sender: String,
    /// The message's lines are gone.
    pub deleted: bool,
}

impl MessageDocument {
    /// A blank message with id `id` dated `date`: a plain message, of no
    /// conversation, from the all-zero key, with nothing in it.
    pub fn empty_with(id: u128, date: i64) -> (r: Self)
        ensures
            r@.id == id,
            r@.date == date,
            r@.message_type == MessageType::Message,
            r@.conversation_id == 0,
            r@.version == MessageVersion::V0,
            r@.sender == Seq::new(32, |i: int| 0u8),
            r@.reactions.len() == 0,
            r@.attachments.len() == 0,
            r@.modified is None,
            !r@.pinned,
            r@.replied is None,
            r@.message is None,
            r@.signature is None,
    {
        let r = MessageDocument {
            id,
            message_type: MessageType::Message,
            conversation_id: 0,
            version: MessageVersion::V0,
            sender: DIDEd25519Reference([0u8; 32]),
            date,
            reactions: Vec::new(),
            attachments: Vec::new(),
            modified: None,
            pinned: false,
            replied: None,
            message: None,
            signature: None,
        };
        assert(r@.sender =~= Seq::new(32, |i: int| 0u8));
        r
    }

    /// A blank message with a fresh random id, dated now.
    pub fn empty() -> (r: Self)
        ensures
            exists|id: u128, date: i64| r@ == Self::empty_with_spec(id, date),
    {
        let id = crate::clock::new_uuid();
        let date = crate::clock::now_nanos();
        let r = Self::empty_with(id, date);
        assert(r@.reactions =~= Seq::<(Seq<char>, Seq<Seq<char>>)>::empty());
        assert(r@.attachments =~= Seq::<AttachmentView>::empty());
        assert(r@ =~= Self::empty_with_spec(id, date));
        r
    }

    /// The view of a blank message.
    pub open spec fn empty_with_spec(id: u128, date: i64) -> MessageDocumentView {
        MessageDocumentView {
            id,
            message_type: MessageType::Message,
            conversation_id: 0,
            version: MessageVersion::V0,
            sender: Seq::new(32, |i: int| 0u8),
            date,
            reactions: Seq::empty(),
            attachments: Seq::empty(),
            modified: None,
            pinned: false,
            replied: None,
            message: None,
            signature: None,
        }
    }

    pub fn id(&self) -> (r: u128)
        ensures
            r == self.id,
    {
        self.id
    }

    pub fn message_type(&self) -> (r: MessageType)
        ensures
            r == self.message_type,
    {
        self.message_type
    }

    pub fn conversation_id(&self) -> (r: u128)
        ensures
            r == self.conversation_id,
    {
        self.conversation_id
    }

    pub fn version(&self) -> (r: MessageVersion)
        ensures
            r == self.version,
    {
        self.version
    }

    /// The sender's `did:key`.
    pub fn sender(&self) -> (r: String)
        ensures
            r@ == did_of_key(self.sender.0@),
    {
        self.sender.to_did()
    }

    pub fn date(&self) -> (r: i64)
        ensures
            r == self.date,
    {
        self.date
    }

    pub fn reactions(&self) -> (r: &Vec<(String, Vec<String>)>)
        ensures
            reactions_view(r@) == self@.reactions,
    {
        &self.reactions
    }

    pub fn modified(&self) -> (r: Option<i64>)
        ensures
            r == self.modified,
    {
        self.modified
    }

    pub fn pinned(&self) -> (r: bool)
        ensures
            r == self.pinned,
    {
        self.pinned
    }

    pub fn replied(&self) -> (r: Option<u128>)
        ensures
            r == self.replied,
    {
        self.replied
    }

    pub fn attachments(&self) -> (r: &Vec<FileAttachmentDocument>)
        ensures
            attachments_view(r@) == self@.attachments,
    {
        &self.attachments
    }

    /// What a query reads of the message.
    pub fn meta(&self) -> (r: MessageMeta)
        ensures
            r.id == self.id,
            r.date == self.date,
            r.pinned == self.pinned,
    {
        MessageMeta { id: self.id, date: self.date, pinned: self.pinned }
    }

    /// The reference to this message.
    pub fn to_reference(&self) -> (r: MessageReference)
        ensures
            r.id == self.id,
            r.conversation_id == self.conversation_id,
            r.date == self.date,
            r.modified == self.modified,
            r.pinned == self.pinned,
            r.replied == self.replied,
            r.sender@ == did_of_key(self.sender.0@),
            r.deleted == self.message is None,
    {
        MessageReference {
            id: self.id,
            conversation_id: self.conversation_id,
            date: self.date,
            modified: self.modified,
            pinned: self.pinned,
            replied: self.replied,
            sender: self.sender.to_did(),
            deleted: self.message.is_none(),
        }
    }

    pub fn set_message_type(self, message_type: MessageType) -> (r: Self)
        ensures
            r@ == (MessageDocumentView { message_type, ..self@ }),
    {
        let mut s = self;
        s.message_type = message_type;
        s
    }

    /// Sets the sender from its `did:key`.
    pub fn set_sender(self, sender: &String) -> (r: Self)
        requires
            crate::did::key_of_did(sender@) is Some,
        ensures
            r@ == (MessageDocumentView { sender: crate::did::key_of_did(sender@)->0, ..self@ }),
    {
        let mut s = self;
        s.sender = DIDEd25519Reference::from_did(sender);
        s
    }

    pub fn set_pin(self, pinned: bool) -> (r: Self)
        ensures
            r@ == (MessageDocumentView { pinned, ..self@ }),
    {
        let mut s = self;
        s.pinned = pinned;
        s
    }

    pub fn set_replied(self, replied: u128) -> (r: Self)
        ensures
            r@ == (MessageDocumentView { replied: Some(replied), ..self@ }),
    {
        let mut s = self;
        s.replied = Some(replied);
        s
    }

    pub fn set_modified(self, modified: i64) -> (r: Self)
        ensures
            r@ == (MessageDocumentView { modified: Some(modified), ..self@ }),
    {
        let mut s = self;
        s.modified = Some(modified);
        s
    }

    /// Attaches a file: refused when more than `MAX_ATTACHMENT` files are
    /// attached already; a file that is attached already is not added twice.
    pub fn add_attachment(self, attachment: FileAttachmentDocument) -> (r: Result<Self, Error>)
        ensures
            self@.attachments.len() > MAX_ATTACHMENT ==> (r matches Err(e) && is_length_error(
                e,
                "attachments"@,
                self@.attachments.len() as usize,
                None,
                Some(MAX_ATTACHMENT),
            )),
            self@.attachments.len() <= MAX_ATTACHMENT ==> (r matches Ok(d) && d@ == (MessageDocumentView {
                attachments: if self@.attachments.contains(attachment@) {
                    self@.attachments
                } else {
                    self@.attachments.push(attachment@)
                },
                ..self@
            })),
    {
        let amount = self.attachments.len();
        if amount > MAX_ATTACHMENT {
            return Err(Error::InvalidLength {
                context: String::from_str("attachments"),
                current: amount,
                minimum: None,
                maximum: Some(MAX_ATTACHMENT),
            });
        }
        let ghost orig = self@;
        let mut s = self;
        let mut i: usize = 0;
        while i < s.attachments.len()
            invariant
                i <= s.attachments@.len(),
                s@ == orig,
                orig == self@,
                orig.attachments.len() <= MAX_ATTACHMENT,
                forall|k: int| 0 <= k < i ==> s.attachments@[k]@ != attachment@,
            decreases s.attachments@.len() - i,
        {
            if s.attachments[i].same(&attachment) {
                assert(attachments_view(s.attachments@)[i as int] == attachment@);
                assert(orig.attachments.contains(attachment@));
                return Ok(s);
            }
            i += 1;
        }
        let ghost before = s@;
        assert(!before.attachments.contains(attachment@));
        s.attachments.push(attachment);
        assert(s@.attachments =~= before.attachments.push(attachment@));
        Ok(s)
    }

    /// Removes every attachment with id `file_id`.
    pub fn remove_attachment(self, file_id: u128) -> (r: Self)
        ensures
            r@ == (MessageDocumentView { attachments: self@.attachments.filter(|a: AttachmentView| a.id != file_id), ..self@ }),
    {
        let mut s = self;
        let ghost before = s@;
        let mut kept: Vec<FileAttachmentDocument> = Vec::new();
        let mut i: usize = 0;
        while i < s.attachments.len()
            invariant
                i <= s.attachments@.len(),
                attachments_view(s.attachments@) == before.attachments,
                attachments_view(kept@) == before.attachments.subrange(0, i as int).filter(
                    |a: AttachmentView| a.id != file_id,
                ),
            decreases s.attachments@.len() - i,
        {
            let ghost prev = kept@;
            assert(before.attachments.subrange(0, i + 1).drop_last() =~= before.attachments.subrange(0, i as int));
            assert(before.attachments.subrange(0, i + 1).last() == before.attachments[i as int]);
            proof {
                reveal_with_fuel(Seq::filter, 1);
            }
            if s.attachments[i].id != file_id {
                kept.push(s.attachments[i].clone_attachment());
                assert(attachments_view(kept@) =~= attachments_view(prev).push(before.attachments[i as int]));
            }
            i += 1;
        }
        assert(before.attachments.subrange(0, i as int) =~= before.attachments);
        s.attachments = kept;
        s
    }

    /// Adds `reactor`'s reaction `emoji`. A reactor reacts once per emoji; a
    /// new emoji is refused when more than `MAX_REACTIONS` are there already.
    pub fn add_reaction(self, emoji: String, reactor: String) -> (r: Result<Self, Error>)
        ensures
            ({
                let rv = self@.reactions;
                let k = emoji_index(rv, emoji@);
                &&& (k >= 0 && rv[k].1.contains(reactor@)) ==> r == Err::<Self, Error>(Error::ReactionExist)
                &&& (k >= 0 && !rv[k].1.contains(reactor@)) ==> (r matches Ok(d) && d@ == (MessageDocumentView {
                    reactions: with_reaction(rv, emoji@, reactor@),
                    ..self@
                }))
                &&& (k < 0 && rv.len() > MAX_REACTIONS) ==> (r matches Err(e) && is_length_error(
                    e,
                    "reactions"@,
                    rv.len() as usize,
                    None,
                    Some(MAX_REACTIONS),
                ))
                &&& (k < 0 && rv.len() <= MAX_REACTIONS) ==> (r matches Ok(d) && d@ == (MessageDocumentView {
                    reactions: with_reaction(rv, emoji@, reactor@),
                    ..self@
                }))
            }),
    {
        let mut s = self;
        let ghost before = s@;
        let size = s.reactions.len();
        let k = find_emoji(&s.reactions, &emoji);
        proof {
            lemma_emoji_index_from(before.reactions, emoji@, 0);
        }
        if k < size {
            if crate::assoc::contains_did(&s.reactions[k].1, &reactor) {
                proof {
                    crate::assoc::lemma_has_did_view(s.reactions@[k as int].1@, reactor@);
                }
                return Err(Error::ReactionExist);
            }
            proof {
                crate::assoc::lemma_has_did_view(s.reactions@[k as int].1@, reactor@);
            }
            let ghost rl = s.reactions@[k as int].1@;
            s.reactions[k].1.push(reactor);
            assert(strings_view(s.reactions@[k as int].1@) =~= strings_view(rl).push(reactor@));
            assert(s@.reactions =~= before.reactions.update(k as int, (emoji@, before.reactions[k as int].1.push(reactor@))));
            Ok(s)
        } else {
            if size > MAX_REACTIONS {
                return Err(Error::InvalidLength {
                    context: String::from_str("reactions"),
                    current: size,
                    minimum: None,
                    maximum: Some(MAX_REACTIONS),
                });
            }
            let mut list: Vec<String> = Vec::new();
            let ghost ev = emoji@;
            let ghost rv = reactor@;
            list.push(reactor);
            s.reactions.push((emoji, list));
            assert(strings_view(s.reactions@[size as int].1@) =~= seq![rv]);
            assert(s@.reactions =~= before.reactions.push((ev, seq![rv])));
            Ok(s)
        }
    }

    /// Takes back `reactor`'s reaction `emoji`; an emoji nobody reacts with
    /// any more is dropped.
    pub fn remove_reaction(self, emoji: String, reactor: String) -> (r: Result<Self, Error>)
        ensures
            ({
                let rv = self@.reactions;
                let k = emoji_index(rv, emoji@);
                &&& (k < 0 || !rv[k].1.contains(reactor@)) ==> r == Err::<Self, Error>(Error::ReactionDoesntExist)
                &&& (k >= 0 && rv[k].1.contains(reactor@)) ==> (r matches Ok(d) && d@ == (MessageDocumentView {
                    reactions: without_reaction(rv, emoji@, reactor@),
                    ..self@
                }))
            }),
    {
        let mut s = self;
        let ghost before = s@;
        let k = find_emoji(&s.reactions, &emoji);
        proof {
            lemma_emoji_index_from(before.reactions, emoji@, 0);
        }
        if k >= s.reactions.len() {
            return Err(Error::ReactionDoesntExist);
        }
        let j = position_of(&s.reactions[k].1, &reactor);
        proof {
            crate::assoc::lemma_has_did_view(s.reactions@[k as int].1@, reactor@);
        }
        if j >= s.reactions[k].1.len() {
            return Err(Error::ReactionDoesntExist);
        }
        let ghost rl = s.reactions@[k as int].1@;
        s.reactions[k].1.remove(j);
        assert(strings_view(s.reactions@[k as int].1@) =~= strings_view(rl).remove(j as int));
        if s.reactions[k].1.len() == 0 {
            s.reactions.remove(k);
            assert(s@.reactions =~= before.reactions.remove(k as int));
        } else {
            assert(s@.reactions =~= before.reactions.update(
                k as int,
                (emoji@, before.reactions[k as int].1.remove(j as int)),
            ));
        }
        Ok(s)
    }

    /// The encrypted lines.
    pub fn raw_encrypted_message(&self) -> (r: Result<&Vec<u8>, Error>)
        ensures
            match self.message {
                Some(m) => r matches Ok(v) && v@ == m@,
                None => r == Err::<&Vec<u8>, Error>(Error::MessageNotFound),
            },
    {
        match &self.message {
            Some(m) => Ok(m),
            None => Err(Error::MessageNotFound),
        }
    }

    /// The nonce of the encrypted lines: their last 12 bytes.
    pub fn nonce_from_message(&self) -> (r: Result<Vec<u8>, Error>)
        requires
            self.message matches Some(m) ==> m@.len() >= 12,
        ensures
            match self.message {
                Some(m) => r matches Ok(v) && v@ == m@.subrange(m@.len() - 12, m@.len() as int),
                None => r == Err::<Vec<u8>, Error>(Error::MessageNotFound),
            },
    {
        let m = match self.raw_encrypted_message() {
            Ok(m) => m,
            Err(e) => {
                return Err(e);
            },
        };
        let n = m.len();
        let mut r: Vec<u8> = Vec::new();
        let mut i: usize = n - 12;
        while i < n
            invariant
                n >= 12,
                n - 12 <= i <= n,
                n == m@.len(),
                r@ == m@.subrange(n - 12, i as int),
            decreases n - i,
        {
            r.push(m[i]);
            assert(m@.subrange(n - 12, i + 1) =~= m@.subrange(n - 12, i as int).push(m@[i as int]));
            i += 1;
        }
        Ok(r)
    }

    /// The lines of the message: decrypted with `open`, then read as JSON.
    pub fn message<F: Fn(&[u8]) -> Result<Vec<u8>, Error>>(&self, open: F) -> (r: Result<Vec<String>, Error>)
        requires
            forall|x: &[u8]| call_requires(open, (x,)),
        ensures
            lines_outcome(open, *self, r),
    {
        let cipher = match &self.message {
            Some(m) => m,
            None => {
                return Err(Error::MessageNotFound);
            },
        };
        let x = cipher.as_slice();
        let d = open(x);
        let ghost dd = d;
        match d {
            Err(e) => Err(e),
            Ok(plain) => match json_decode_lines(plain.as_slice()) {
                Some(lines) => Ok(lines),
                None => Err(Error::SerdeJsonError),
            },
        }
    }

    /// The fields and attachment data a signature of this message covers.
    pub fn signing_payload(&self) -> (r: SigningPayload)
        ensures
            payload_view(r) == (spec_signing_fields(self@), spec_attachment_data(self@)),
    {
        let mut fields: Vec<Option<Vec<u8>>> = Vec::new();
        fields.push(Some(be_bytes_exec(self.conversation_id)));
        fields.push(Some(be_bytes_exec(self.id)));
        let mut key: Vec<u8> = Vec::new();
        let mut i: usize = 0;
        while i < 32
            invariant
                i <= 32,
                key@ == self.sender.0@.subrange(0, i as int),
            decreases 32 - i,
        {
            key.push(self.sender.0[i]);
            assert(self.sender.0@.subrange(0, i + 1) =~= self.sender.0@.subrange(0, i as int).push(self.sender.0@[i as int]));
            i += 1;
        }
        assert(self.sender.0@.subrange(0, 32) =~= self.sender.0@);
        fields.push(Some(key));
        fields.push(Some(string_bytes(&date_string(self.date))));
        fields.push(
            match self.modified {
                Some(t) => Some(string_bytes(&date_string(t))),
                None => None,
            },
        );
        fields.push(
            match self.replied {
                Some(id) => Some(be_bytes_exec(id)),
                None => None,
            },
        );
        fields.push(None);
        fields.push(
            match &self.message {
                Some(m) => Some(clone_bytes(m)),
                None => None,
            },
        );
        let mut attachments: Vec<Vec<u8>> = Vec::new();
        let mut j: usize = 0;
        while j < self.attachments.len()
            invariant
                j <= self.attachments@.len(),
                attachments@.len() == j,
                forall|k: int| 0 <= k < j ==> #[trigger] attachments@[k]@ == encode_utf8(self.attachments@[k].data@),
            decreases self.attachments@.len() - j,
        {
            attachments.push(string_bytes(&self.attachments[j].data));
            j += 1;
        }
        let r = SigningPayload { fields, attachments };
        assert(payload_view(r).0 =~= spec_signing_fields(self@));
        assert(payload_view(r).1 =~= spec_attachment_data(self@));
        r
    }

    /// The lines of a message that checks out: its signature must pass
    /// `check`; its lines are opened with `open`. An attachment whose lines
    /// cannot be opened has none; for another message that is an error.
    pub fn resolve_lines<
        G: Fn(&[u8; 32], &SigningPayload, &[u8; 64]) -> Option<bool>,
        F: Fn(&[u8]) -> Result<Vec<u8>, Error>,
    >(&self, check: G, open: F) -> (r: Result<Option<Vec<String>>, Error>)
        requires
            forall|k: &[u8; 32], p: &SigningPayload, s: &[u8; 64]| call_requires(check, (k, p, s)),
            forall|x: &[u8]| call_requires(open, (x,)),
        ensures
            exists|v: Result<(), Error>|
                #[trigger] message_verify_outcome(check, *self, v) && match v {
                    Err(e) => r == Err::<Option<Vec<String>>, Error>(e),
                    Ok(()) => exists|l: Result<Vec<String>, Error>|
                        #[trigger] lines_outcome(open, *self, l) && match l {
                            Ok(lines) => r matches Ok(Some(x)) && strings_view(x@) == strings_view(lines@),
                            Err(e) => if self.message_type == MessageType::Attachment {
                                r matches Ok(None)
                            } else {
                                r == Err::<Option<Vec<String>>, Error>(e)
                            },
                        },
                },
    {
        let v = self.verify(check);
        match v {
            Err(e) => {
                return Err(e);
            },
            Ok(()) => {},
        }
        let l = self.message(open);
        match l {
            Ok(lines) => Ok(Some(lines)),
            Err(e) => {
                if self.message_type == MessageType::Attachment {
                    Ok(None)
                } else {
                    Err(e)
                }
            },
        }
    }

    /// Checks the message: it must be signed, its sender's key valid and the
    /// signature good (as `check` finds for the sender's key, the payload and
    /// the signature: nothing for an invalid key), and it must hold at most
    /// `MAX_REACTIONS` reactions and `MAX_ATTACHMENT` attachments.
    pub fn verify<G: Fn(&[u8; 32], &SigningPayload, &[u8; 64]) -> Option<bool>>(&self, check: G) -> (r: Result<
        (),
        Error,
    >)
        requires
            forall|k: &[u8; 32], p: &SigningPayload, s: &[u8; 64]| call_requires(check, (k, p, s)),
        ensures
            message_verify_outcome(check, *self, r),
    {
        let sig = match &self.signature {
            Some(s) => s,
            None => {
                return Err(Error::InvalidSignature);
            },
        };
        let payload = self.signing_payload();
        let c = check(&self.sender.0, &payload, &sig.0);
        let ghost cc = c;
        let ghost pp = &payload;
        match c {
            None => Err(Error::PublicKeyInvalid),
            Some(false) => Err(Error::InvalidMessage),
            Some(true) => {
                if self.reactions.len() > MAX_REACTIONS {
                    return Err(Error::InvalidLength {
                        context: String::from_str("reactions"),
                        current: self.reactions.len(),
                        minimum: None,
                        maximum: Some(MAX_REACTIONS),
                    });
                }
                if self.attachments.len() > MAX_ATTACHMENT {
                    return Err(Error::InvalidLength {
                        context: String::from_str("attachments"),
                        current: self.attachments.len(),
                        minimum: None,
                        maximum: Some(MAX_ATTACHMENT),
                    });
                }
                Ok(())
            },
        }
    }

    /// Signs the message as `own_did` at time `now`: only the sender signs
    /// its messages. The modification date becomes `now`; `signer` signs the
    /// payload; a signature that is not 64 bytes is refused.
    pub fn sign_at<S: Fn(&SigningPayload) -> Vec<u8>>(self, own_did: &String, now: i64, signer: S) -> (r: Result<
        Self,
        Error,
    >)
        requires
            forall|p: &SigningPayload| call_requires(signer, (p,)),
        ensures
            sign_outcome(signer, self, own_did@, now, r),
    {
        let sender = self.sender.to_did();
        if sender != *own_did {
            return Err(Error::PublicKeyInvalid);
        }
        let mut s = self;
        s.modified = Some(now);
        let payload = s.signing_payload();
        let sig = signer(&payload);
        let ghost sv = sig;
        match MessageSignature::try_from(sig) {
            Ok(signature) => {
                s.signature = Some(signature);
                Ok(s)
            },
            Err(e) => Err(e),
        }
    }

    /// Signs the message as `own_did`, now.
    pub fn sign<S: Fn(&SigningPayload) -> Vec<u8>>(self, own_did: &String, signer: S) -> (r: Result<Self, Error>)
        requires
            forall|p: &SigningPayload| call_requires(signer, (p,)),
        ensures
            exists|now: i64| #[trigger] sign_outcome(signer, self, own_did@, now, r),
    {
        let now = crate::clock::now_nanos();
        self.sign_at(own_did, now, signer)
    }

    /// Sets the lines of the message: refused when the lines (each trimmed)
    /// hold more than `MAX_MESSAGE_SIZE` characters; otherwise their JSON is
    /// encrypted with `encrypt` and the message signed at `now`.
    pub fn set_message_at<E: Fn(&[u8]) -> Result<Vec<u8>, Error>, S: Fn(&SigningPayload) -> Vec<u8>>(
        self,
        own_did: &String,
        now: i64,
        encrypt: E,
        signer: S,
        message: &Vec<String>,
    ) -> (r: Result<Self, Error>)
        requires
            lines_length(strings_view(message@)) <= usize::MAX,
            forall|x: &[u8]| call_requires(encrypt, (x,)),
            forall|p: &SigningPayload| call_requires(signer, (p,)),
        ensures
            message@.len() > 0 && lines_length(strings_view(message@)) > MAX_MESSAGE_SIZE ==> (r matches Err(e)
                && is_length_error(
                e,
                "message"@,
                lines_length(strings_view(message@)) as usize,
                None,
                Some(MAX_MESSAGE_SIZE),
            )),
            !(message@.len() > 0 && lines_length(strings_view(message@)) > MAX_MESSAGE_SIZE) ==> exists|
                x: &[u8],
                c: Result<Vec<u8>, Error>,
            |
                x@ == crate::codec::json_of_lines(strings_view(message@)) && #[trigger] call_ensures(encrypt, (x,), c)
                    && match c {
                    Err(e) => r == Err::<Self, Error>(e),
                    Ok(data) => sign_outcome(signer, (MessageDocument { message: Some(data), ..self }), own_did@, now, r),
                },
    {
        if message.len() > 0 {
            let n = lines_value_length(message);
            if n > MAX_MESSAGE_SIZE {
                return Err(Error::InvalidLength {
                    context: String::from_str("message"),
                    current: n,
                    minimum: None,
                    maximum: Some(MAX_MESSAGE_SIZE),
                });
            }
        }
        let bytes = json_encode_lines(message);
        let c = encrypt(bytes.as_slice());
        let ghost cc = c;
        match c {
            Err(e) => Err(e),
            Ok(data) => {
                let mut s = self;
                s.message = Some(data);
                s.sign_at(own_did, now, signer)
            },
        }
    }

    /// Sets a new version of the lines, as an edit does: the modification
    /// date becomes `modified`; a nonce equal to the one of the current
    /// lines is refused (a nonce is never reused); the JSON of the lines is
    /// encrypted with `encrypt` (with the nonce, if one is given). Then
    /// either this node is the sender and no signature is given, and the
    /// message is signed at `now`; or another node sent it with its
    /// signature, which must hold (`check`). Any other case is refused.
    pub fn set_message_with_nonce<
        E: Fn(&[u8], Option<&[u8]>) -> Result<Vec<u8>, Error>,
        S: Fn(&SigningPayload) -> Vec<u8>,
        G: Fn(&[u8; 32], &SigningPayload, &[u8; 64]) -> Option<bool>,
    >(
        self,
        own_did: &String,
        now: i64,
        encrypt: E,
        signer: S,
        check: G,
        modified: i64,
        message: &Vec<String>,
        signature: Option<Vec<u8>>,
        nonce: Option<&[u8]>,
    ) -> (r: Result<Self, Error>)
        requires
            lines_length(strings_view(message@)) <= usize::MAX,
            self.message matches Some(m) ==> m@.len() >= 12,
            forall|x: &[u8], n: Option<&[u8]>| call_requires(encrypt, (x, n)),
            forall|p: &SigningPayload| call_requires(signer, (p,)),
            forall|k: &[u8; 32], p: &SigningPayload, s: &[u8; 64]| call_requires(check, (k, p, s)),
        ensures
            edit_outcome(
                encrypt,
                signer,
                check,
                self,
                own_did@,
                now,
                modified,
                strings_view(message@),
                match signature {
                    Some(v) => Some(v@),
                    None => None,
                },
                opt_slice_view(nonce),
                r,
            ),
    {
        let mut s = self;
        s.modified = Some(modified);
        if message.len() > 0 {
            let n = lines_value_length(message);
            if n > MAX_MESSAGE_SIZE {
                return Err(Error::InvalidLength {
                    context: String::from_str("message"),
                    current: n,
                    minimum: None,
                    maximum: Some(MAX_MESSAGE_SIZE),
                });
            }
        }
        let current_nonce = match s.nonce_from_message() {
            Ok(n) => n,
            Err(e) => {
                return Err(e);
            },
        };
        if let Some(n) = nonce {
            if slice_eq(n, current_nonce.as_slice()) {
                return Err(Error::InvalidMessage);
            }
        }
        let bytes = json_encode_lines(message);
        let data = match encrypt(bytes.as_slice(), nonce) {
            Ok(d) => d,
            Err(e) => {
                return Err(e);
            },
        };
        s.message = if data.len() == 0 { None } else { Some(data) };
        let sender = s.sender.to_did();
        let is_own = sender == *own_did;
        match signature {
            None => {
                if is_own {
                    s.sign_at(own_did, now, signer)
                } else {
                    Err(Error::InvalidMessage)
                }
            },
            Some(sig) => {
                if is_own {
                    return Err(Error::InvalidMessage);
                }
                let ghost sv = sig@;
                let new_signature = match MessageSignature::try_from(sig) {
                    Ok(x) => x,
                    Err(e) => {
                        return Err(e);
                    },
                };
                s.signature = Some(new_signature);
                match s.verify(check) {
                    Ok(()) => Ok(s),
                    Err(e) => Err(e),
                }
            },
        }
    }
}

proof fn lemma_emoji_index_from(r: ReactionsView, emoji: Seq<char>, i: int)
    requires
        0 <= i,
    ensures
        emoji_index_from(r, emoji, i) == -1 || (i <= emoji_index_from(r, emoji, i) < r.len() && r[emoji_index_from(
            r,
            emoji,
            i,
        )].0 == emoji),
    decreases r.len() - i,
{
    if i < r.len() && r[i].0 != emoji {
        lemma_emoji_index_from(r, emoji, i + 1);
    }
}

proof fn lemma_emoji_index_same_keys(a: ReactionsView, b: ReactionsView, emoji: Seq<char>, i: int)
    requires
        a.len() == b.len(),
        forall|j: int| 0 <= j < a.len() ==> #[trigger] a[j].0 == b[j].0,
    ensures
        emoji_index_from(a, emoji, i) == emoji_index_from(b, emoji, i),
    decreases a.len() - i,
{
    if 0 <= i < a.len() && a[i].0 != emoji {
        lemma_emoji_index_same_keys(a, b, emoji, i + 1);
    }
}

proof fn lemma_emoji_index_push(rv: ReactionsView, e: (Seq<char>, Seq<Seq<char>>), i: int)
    requires
        0 <= i <= rv.len(),
        emoji_index_from(rv, e.0, i) == -1,
    ensures
        emoji_index_from(rv.push(e), e.0, i) == rv.len(),
    decreases rv.len() - i,
{
    if i < rv.len() {
        assert(rv.push(e)[i] == rv[i]);
        lemma_emoji_index_push(rv, e, i + 1);
    } else {
        assert(rv.push(e)[i] == e);
    }
}

/// A reaction added and then taken back leaves the reactions as they were,
/// unless the emoji was there with no reactor (the taking back then drops
/// it).
pub proof fn law_add_then_remove_reaction(rv: ReactionsView, emoji: Seq<char>, reactor: Seq<char>)
    requires
        !(emoji_index(rv, emoji) >= 0 && rv[emoji_index(rv, emoji)].1.contains(reactor)),
        emoji_index(rv, emoji) >= 0 ==> rv[emoji_index(rv, emoji)].1.len() > 0,
    ensures
        emoji_index(with_reaction(rv, emoji, reactor), emoji) >= 0,
        with_reaction(rv, emoji, reactor)[emoji_index(with_reaction(rv, emoji, reactor), emoji)].1.contains(reactor),
        without_reaction(with_reaction(rv, emoji, reactor), emoji, reactor) == rv,
{
    let k = emoji_index(rv, emoji);
    let a = with_reaction(rv, emoji, reactor);
    lemma_emoji_index_from(rv, emoji, 0);
    let list = if k >= 0 {
        rv[k].1
    } else {
        Seq::<Seq<char>>::empty()
    };
    if k >= 0 {
        assert forall|j: int| 0 <= j < rv.len() implies #[trigger] rv[j].0 == a[j].0 by {}
        lemma_emoji_index_same_keys(rv, a, emoji, 0);
        assert(a[k].1 == list.push(reactor));
    } else {
        lemma_emoji_index_push(rv, (emoji, seq![reactor]), 0);
        assert(a[rv.len() as int].1 =~= list.push(reactor));
    }
    let ka = emoji_index(a, emoji);
    let pushed = list.push(reactor);
    assert(a[ka].1 == pushed);
    assert(pushed[list.len() as int] == reactor);
    pushed.index_of_first_ensures(reactor);
    let f = pushed.index_of_first(reactor).unwrap();
    if f < list.len() {
        assert(list[f] == reactor);
        assert(list.contains(reactor));
    }
    assert(f == list.len());
    assert(pushed.remove(f) =~= list);
    if k >= 0 {
        assert(without_reaction(a, emoji, reactor) =~= rv);
    } else {
        assert(without_reaction(a, emoji, reactor) =~= rv);
    }
}

/// Byte-wise equality of two slices.
fn slice_eq(a: &[u8], b: &[u8]) -> (r: bool)
    ensures
        r == (a@ == b@),
{
    if a.len() != b.len() {
        return false;
    }
    let mut i: usize = 0;
    while i < a.len()
        invariant
            i <= a@.len(),
            a@.len() == b@.len(),
            forall|k: int| 0 <= k < i ==> a@[k] == b@[k],
        decreases a@.len() - i,
    {
        if a[i] != b[i] {
            return false;
        }
        i += 1;
    }
    assert(a@ =~= b@);
    true
}

/// Position of the first reaction with emoji `emoji`; the length when none has it.
fn find_emoji(r: &Vec<(String, Vec<String>)>, emoji: &String) -> (k: usize)
    ensures
        k <= r@.len(),
        k < r@.len() ==> k as int == emoji_index(reactions_view(r@), emoji@),
        k == r@.len() ==> emoji_index(reactions_view(r@), emoji@) < 0,
{
    let ghost rv = reactions_view(r@);
    let mut i: usize = 0;
    while i < r.len()
        invariant
            i <= r@.len(),
            rv == reactions_view(r@),
            emoji_index(rv, emoji@) == emoji_index_from(rv, emoji@, i as int),
        decreases r@.len() - i,
    {
        if r[i].0 == *emoji {
            return i;
        }
        i += 1;
    }
    i
}

/// Position of the first occurrence of `did`; the length when absent.
fn position_of(list: &Vec<String>, did: &String) -> (j: usize)
    ensures
        j <= list@.len(),
        j < list@.len() ==> strings_view(list@).index_of_first(did@) == Some(j as int) && strings_view(list@).contains(did@),
        j == list@.len() ==> !strings_view(list@).contains(did@),
{
    let ghost v = strings_view(list@);
    let mut i: usize = 0;
    while i < list.len()
        invariant
            i <= list@.len(),
            v == strings_view(list@),
            forall|k: int| 0 <= k < i ==> v[k] != did@,
        decreases list@.len() - i,
    {
        if list[i] == *did {
            assert(v[i as int] == did@);
            assert(v.contains(did@));
            proof {
                v.index_of_first_ensures(did@);
                let f = v.index_of_first(did@);
                assert(f matches Some(x) && x == i);
            }
            return i;
        }
        i += 1;
    }
    i
}

/// Builds a message document step by step; it is signed when built.
pub struct MessageDocumentBuilder {
    message_document: MessageDocument,
}

impl MessageDocumentBuilder {
    /// The document built so far.
    pub closed spec fn spec_document(&self) -> MessageDocument {
        self.message_document
    }

    /// Starts from an empty message with a fresh id, dated now.
    pub fn new() -> (r: Self)
        ensures
            exists|id: u128, date: i64| r.spec_document()@ == MessageDocument::empty_with_spec(id, date),
    {
        MessageDocumentBuilder { message_document: MessageDocument::empty() }
    }

    pub fn set_message_id(self, id: u128) -> (r: Self)
        ensures
            r.spec_document()@ == (MessageDocumentView { id, ..self.spec_document()@ }),
    {
        let mut s = self;
        s.message_document.id = id;
        s
    }

    pub fn set_conversation_id(self, id: u128) -> (r: Self)
        ensures
            r.spec_document()@ == (MessageDocumentView { conversation_id: id, ..self.spec_document()@ }),
    {
        let mut s = self;
        s.message_document.conversation_id = id;
        s
    }

    pub fn set_message_type(self, message_type: MessageType) -> (r: Self)
        ensures
            r.spec_document()@ == (MessageDocumentView { message_type, ..self.spec_document()@ }),
    {
        MessageDocumentBuilder { message_document: self.message_document.set_message_type(message_type) }
    }

    /// The sender, an Ed25519 `did:key`.
    pub fn set_sender(self, sender: &String) -> (r: Self)
        requires
            crate::did::key_of_did(sender@) is Some,
        ensures
            r.spec_document()@ == (MessageDocumentView {
                sender: crate::did::key_of_did(sender@)->0,
                ..self.spec_document()@
            }),
    {
        MessageDocumentBuilder { message_document: self.message_document.set_sender(sender) }
    }

    pub fn set_pin(self, pinned: bool) -> (r: Self)
        ensures
            r.spec_document()@ == (MessageDocumentView { pinned, ..self.spec_document()@ }),
    {
        MessageDocumentBuilder { message_document: self.message_document.set_pin(pinned) }
    }

    pub fn set_replied(self, replied: Option<u128>) -> (r: Self)
        ensures
            r.spec_document()@ == (MessageDocumentView { replied, ..self.spec_document()@ }),
    {
        let mut s = self;
        s.message_document.replied = replied;
        s
    }

    pub fn set_date(self, date: i64) -> (r: Self)
        ensures
            r.spec_document()@ == (MessageDocumentView { date, ..self.spec_document()@ }),
    {
        let mut s = self;
        s.message_document.date = date;
        s
    }

    pub fn set_modified(self, modified: i64) -> (r: Self)
        ensures
            r.spec_document()@ == (MessageDocumentView { modified: Some(modified), ..self.spec_document()@ }),
    {
        MessageDocumentBuilder { message_document: self.message_document.set_modified(modified) }
    }

    /// Adds an attachment, as `MessageDocument::add_attachment` does.
    pub fn add_attachment(self, attachment: FileAttachmentDocument) -> (r: Result<Self, Error>)
        ensures
            self.spec_document()@.attachments.len() > MAX_ATTACHMENT ==> is_length_err(
                r,
                "attachments"@,
                self.spec_document()@.attachments.len() as usize,
                None,
                Some(MAX_ATTACHMENT),
            ),
            self.spec_document()@.attachments.len() <= MAX_ATTACHMENT ==> (r matches Ok(b)
                && b.spec_document()@ == (MessageDocumentView {
                attachments: if self.spec_document()@.attachments.contains(attachment@) {
                    self.spec_document()@.attachments
                } else {
                    self.spec_document()@.attachments.push(attachment@)
                },
                ..self.spec_document()@
            })),
    {
        match self.message_document.add_attachment(attachment) {
            Ok(d) => Ok(MessageDocumentBuilder { message_document: d }),
            Err(e) => Err(e),
        }
    }

    /// Sets the lines: refused when they (each trimmed) hold more than
    /// `MAX_MESSAGE_SIZE` characters; otherwise their JSON is encrypted with
    /// `encrypt`. Nothing is signed yet.
    pub fn set_message<E: Fn(&[u8]) -> Result<Vec<u8>, Error>>(self, message: &Vec<String>, encrypt: E) -> (r: Result<
        Self,
        Error,
    >)
        requires
            lines_length(strings_view(message@)) <= usize::MAX,
            forall|x: &[u8]| call_requires(encrypt, (x,)),
        ensures
            message@.len() > 0 && lines_length(strings_view(message@)) > MAX_MESSAGE_SIZE ==> is_length_err(
                r,
                "message"@,
                lines_length(strings_view(message@)) as usize,
                None,
                Some(MAX_MESSAGE_SIZE),
            ),
            !(message@.len() > 0 && lines_length(strings_view(message@)) > MAX_MESSAGE_SIZE) ==> exists|
                x: &[u8],
                c: Result<Vec<u8>, Error>,
            |
                x@ == crate::codec::json_of_lines(strings_view(message@)) && #[trigger] call_ensures(encrypt, (x,), c)
                    && match c {
                    Err(e) => r is Err && r->Err_0 == e,
                    Ok(data) => r matches Ok(b) && b.spec_document()@ == (MessageDocumentView {
                        message: Some(data@),
                        ..self.spec_document()@
                    }),
                },
    {
        if message.len() > 0 {
            let n = lines_value_length(message);
            if n > MAX_MESSAGE_SIZE {
                return Err(
                    Error::InvalidLength {
                        context: String::from_str("message"),
                        current: n,
                        minimum: None,
                        maximum: Some(MAX_MESSAGE_SIZE),
                    },
                );
            }
        }
        let bytes = json_encode_lines(message);
        let c = encrypt(bytes.as_slice());
        match c {
            Err(e) => Err(e),
            Ok(data) => {
                let mut s = self;
                s.message_document.message = Some(data);
                Ok(s)
            },
        }
    }

    /// The document, signed now as `own_did` (see `MessageDocument::sign`).
    pub fn build<S: Fn(&SigningPayload) -> Vec<u8>>(self, own_did: &String, signer: S) -> (r: Result<
        MessageDocument,
        Error,
    >)
        requires
            forall|p: &SigningPayload| call_requires(signer, (p,)),
        ensures
            exists|now: i64| #[trigger] sign_outcome(signer, self.spec_document(), own_did@, now, r),
    {
        self.message_document.sign(own_did, signer)
    }
}

} // verus!
