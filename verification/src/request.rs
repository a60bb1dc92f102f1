//! Friend-request payloads: what an identity sends another when it asks,
//! accepts, rejects, blocks and so on, signed by the sender; and their
//! conversion to and from the form the relay service carries.
use crate::clock::now_nanos;
use crate::error::Error;
use vstd::prelude::*;

verus! {

/// What a request payload says.
#[derive(PartialEq, Eq, Structural, Clone, Copy, Debug)]
pub enum Event {
    /// A friend request.
    Request,
    /// Accepting the request.
    Accept,
    /// Removing the identity as a friend.
    Remove,
    /// Rejecting a friend request.
    Reject,
    /// Taking back a sent friend request.
    Retract,
    /// Blocking the identity.
    Block,
    /// Unblocking the identity.
    Unblock,
    /// A response to a request.
    Response,
}

/// The layout of a payload: `V0` (the first one, without version, date or
/// signature) or `V1`.
#[derive(PartialEq, Eq, Structural, Clone, Copy, Debug)]
pub enum RequestResponsePayloadVersion {
    V0,
    V1,
}

/// The events the relay service carries (no responses).
#[derive(PartialEq, Eq, Structural, Clone, Copy, Debug)]
pub enum RequestEvent {
    Request,
    Accept,
    Remove,
    Reject,
    Retract,
    Block,
    Unblock,
}

/// A signed request between identities. The date is nanoseconds since the
/// epoch.
#[derive(Debug)]
pub struct RequestResponsePayload {
    pub version: RequestResponsePayloadVersion,
    pub sender: String,
    pub event: Event,
    pub created: Option<i64>,
    pub signature: Option<Vec<u8>>,
}

pub struct PayloadView {
    pub version: RequestResponsePayloadVersion,
    pub sender: Seq<char>,
    pub event: Event,
    pub created: Option<i64>,
    pub signature: Option<Seq<u8>>,
}

impl View for RequestResponsePayload {
    type V = PayloadView;

    open spec fn view(&self) -> PayloadView {
        PayloadView {
            version: self.version,
            sender: self.sender@,
            event: self.event,
            created: self.created,
            signature: match self.signature {
                Some(s) => Some(s@),
                None => None,
            },
        }
    }
}

/// A request as the relay service carries it.
#[derive(Debug)]
pub struct RequestPayload {
    pub sender: String,
    pub event: RequestEvent,
    pub created: i64,
    pub original_signature: Vec<u8>,
    pub signature: Vec<u8>,
}

/// The relay event of a payload event; a response has none.
pub open spec fn relay_event(e: Event) -> Option<RequestEvent> {
    match e {
        Event::Request => Some(RequestEvent::Request),
        Event::Accept => Some(RequestEvent::Accept),
        Event::Remove => Some(RequestEvent::Remove),
        Event::Reject => Some(RequestEvent::Reject),
        Event::Retract => Some(RequestEvent::Retract),
        Event::Block => Some(RequestEvent::Block),
        Event::Unblock => Some(RequestEvent::Unblock),
        Event::Response => None,
    }
}

/// The payload event of a relay event.
pub open spec fn payload_event(e: RequestEvent) -> Event {
    match e {
        RequestEvent::Request => Event::Request,
        RequestEvent::Accept => Event::Accept,
        RequestEvent::Remove => Event::Remove,
        RequestEvent::Reject => Event::Reject,
        RequestEvent::Retract => Event::Retract,
        RequestEvent::Block => Event::Block,
        RequestEvent::Unblock => Event::Unblock,
    }
}

/// `check`, asked whether the sender of `p` signed `p` without its
/// signature, may answer `c`.
pub open spec fn payload_checked<G: Fn(&String, &RequestResponsePayload, &Vec<u8>) -> bool>(
    check: G,
    p: PayloadView,
    c: bool,
) -> bool {
    exists|d: &String, q: &RequestResponsePayload, s: &Vec<u8>|
        d@ == p.sender && q@ == PayloadView { signature: None, ..p } && s@ == p.signature.unwrap()
            && #[trigger] call_ensures(check, (d, q, s), c)
}

/// What checking a payload may give: it must be signed, and `check` must
/// accept the signature.
pub open spec fn payload_verify_outcome<G: Fn(&String, &RequestResponsePayload, &Vec<u8>) -> bool>(
    check: G,
    p: PayloadView,
    r: Result<(), Error>,
) -> bool {
    if p.signature is None {
        r == Err::<(), Error>(Error::InvalidSignature)
    } else {
        (r is Ok && payload_checked(check, p, true)) || (r == Err::<(), Error>(Error::InvalidSignature)
            && payload_checked(check, p, false))
    }
}

/// `d` is `before` dated `now` and signed with what `signer` gave for it
/// without signature.
pub open spec fn signed_payload<S: Fn(&RequestResponsePayload) -> Vec<u8>>(
    signer: S,
    before: PayloadView,
    now: i64,
    d: PayloadView,
) -> bool {
    exists|p: &RequestResponsePayload, sig: Vec<u8>|
        p@ == (PayloadView { created: Some(now), signature: None, ..before }) && #[trigger] call_ensures(
            signer,
            (p,),
            sig,
        ) && d == (PayloadView { created: Some(now), signature: Some(sig@), ..before })
}

/// `check` accepts every signature `signer` makes, for the payload it was
/// made for and its sender.
pub open spec fn accepts_payload_signatures_of<
    S: Fn(&RequestResponsePayload) -> Vec<u8>,
    G: Fn(&String, &RequestResponsePayload, &Vec<u8>) -> bool,
>(signer: S, check: G) -> bool {
    forall|p: &RequestResponsePayload, sig: Vec<u8>, d: &String, q: &RequestResponsePayload, s: &Vec<u8>, c: bool|
        #![trigger call_ensures(signer, (p,), sig), call_ensures(check, (d, q, s), c)]
        call_ensures(signer, (p,), sig) && d@ == p@.sender && q@ == p@ && s@ == sig@ && call_ensures(check, (d, q, s), c)
            ==> c
}

/// A payload signed by `signer` checks out with a `check` that accepts the
/// signatures `signer` makes.
pub proof fn law_signed_payload_checks_out<
    S: Fn(&RequestResponsePayload) -> Vec<u8>,
    G: Fn(&String, &RequestResponsePayload, &Vec<u8>) -> bool,
>(signer: S, check: G, before: PayloadView, now: i64, d: PayloadView, r: Result<(), Error>)
    requires
        signed_payload(signer, before, now, d),
        accepts_payload_signatures_of(signer, check),
        payload_verify_outcome(check, d, r),
    ensures
        r is Ok,
{
    let (p, sig) = choose|p: &RequestResponsePayload, sig: Vec<u8>|
        p@ == (PayloadView { created: Some(now), signature: None, ..before }) && #[trigger] call_ensures(
            signer,
            (p,),
            sig,
        ) && d == (PayloadView { created: Some(now), signature: Some(sig@), ..before });
    if payload_checked(check, d, false) {
        let (e, q, s) = choose|e: &String, q: &RequestResponsePayload, s: &Vec<u8>|
            e@ == d.sender && q@ == PayloadView { signature: None, ..d } && s@ == d.signature.unwrap()
                && #[trigger] call_ensures(check, (e, q, s), false);
        assert(call_ensures(signer, (p,), sig) && call_ensures(check, (e, q, s), false));
    }
}

fn map_event(e: Event) -> (r: Option<RequestEvent>)
    ensures
        r == relay_event(e),
{
    match e {
        Event::Request => Some(RequestEvent::Request),
        Event::Accept => Some(RequestEvent::Accept),
        Event::Remove => Some(RequestEvent::Remove),
        Event::Reject => Some(RequestEvent::Reject),
        Event::Retract => Some(RequestEvent::Retract),
        Event::Block => Some(RequestEvent::Block),
        Event::Unblock => Some(RequestEvent::Unblock),
        Event::Response => None,
    }
}

/// A `V1` payload from `sender`, not yet dated nor signed.
pub open spec fn fresh_payload(sender: Seq<char>, event: Event) -> PayloadView {
    PayloadView { version: RequestResponsePayloadVersion::V1, sender, event, created: None, signature: None }
}

impl RequestResponsePayload {
    /// A `V1` payload from `sender`, not yet dated nor signed.
    pub fn new_unsigned(sender: &String, event: Event) -> (r: Self)
        ensures
            r@ == fresh_payload(sender@, event),
    {
        RequestResponsePayload {
            version: RequestResponsePayloadVersion::V1,
            sender: sender.clone(),
            event,
            created: None,
            signature: None,
        }
    }

    /// The payload without its signature.
    pub fn unsigned(&self) -> (r: Self)
        ensures
            r@ == (PayloadView { signature: None, ..self@ }),
    {
        RequestResponsePayload {
            version: self.version,
            sender: self.sender.clone(),
            event: self.event,
            created: self.created,
            signature: None,
        }
    }

    /// Signs the payload at time `now`: it is dated `now`, and the signature
    /// is what `signer` gives for the dated payload without signature.
    pub fn sign_at<S: Fn(&RequestResponsePayload) -> Vec<u8>>(self, now: i64, signer: &S) -> (r: Result<Self, Error>)
        requires
            forall|p: &RequestResponsePayload| call_requires(*signer, (p,)),
        ensures
            r matches Ok(d) && signed_payload(*signer, self@, now, d@),
    {
        let mut p = self;
        p.signature = None;
        p.created = Some(now);
        let sig = signer(&p);
        p.signature = Some(sig);
        Ok(p)
    }

    /// Signs the payload now (see `sign_at`).
    pub fn sign<S: Fn(&RequestResponsePayload) -> Vec<u8>>(self, signer: &S) -> (r: Result<Self, Error>)
        requires
            forall|p: &RequestResponsePayload| call_requires(*signer, (p,)),
        ensures
            r matches Ok(d) && exists|now: i64| #[trigger] signed_payload(*signer, self@, now, d@),
    {
        let now = now_nanos();
        self.sign_at(now, signer)
    }

    /// A signed `V1` payload from `sender`, dated now.
    pub fn new<S: Fn(&RequestResponsePayload) -> Vec<u8>>(sender: &String, event: Event, signer: &S) -> (r: Result<
        Self,
        Error,
    >)
        requires
            forall|p: &RequestResponsePayload| call_requires(*signer, (p,)),
        ensures
            r matches Ok(d) && exists|now: i64| #[trigger] signed_payload(*signer, fresh_payload(sender@, event), now, d@),
    {
        let p = Self::new_unsigned(sender, event);
        p.sign(signer)
    }

    /// Checks the sender's signature with `check`.
    pub fn verify<G: Fn(&String, &RequestResponsePayload, &Vec<u8>) -> bool>(&self, check: &G) -> (r: Result<
        (),
        Error,
    >)
        requires
            forall|d: &String, p: &RequestResponsePayload, s: &Vec<u8>| call_requires(*check, (d, p, s)),
        ensures
            payload_verify_outcome(*check, self@, r),
    {
        let sig = match &self.signature {
            Some(s) => s,
            None => {
                return Err(Error::InvalidSignature);
            },
        };
        let payload = self.unsigned();
        if check(&self.sender, &payload, sig) {
            Ok(())
        } else {
            Err(Error::InvalidSignature)
        }
    }

    /// The relay form of a checked payload: a response has none, and the
    /// payload must be dated and signed. The relay signature is left empty.
    pub fn into_request_payload<G: Fn(&String, &RequestResponsePayload, &Vec<u8>) -> bool>(self, check: &G) -> (r:
        Result<RequestPayload, Error>)
        requires
            forall|d: &String, p: &RequestResponsePayload, s: &Vec<u8>| call_requires(*check, (d, p, s)),
        ensures
            ({
                let p = self@;
                match r {
                    Err(e) => payload_verify_outcome(*check, p, Err(e)) || (payload_verify_outcome(
                        *check,
                        p,
                        Ok(()),
                    ) && if relay_event(p.event) is None {
                        e matches Error::OtherWithContext(m) && m@ == "Invalid event type"@
                    } else {
                        p.created is None && e == Error::InvalidConversion
                    }),
                    Ok(q) => payload_verify_outcome(*check, p, Ok(())) && relay_event(p.event) == Some(q.event)
                        && q.sender@ == p.sender && p.created == Some(q.created) && p.signature == Some(
                        q.original_signature@,
                    ) && q.signature@.len() == 0,
                }
            }),
    {
        match self.verify(check) {
            Ok(()) => {},
            Err(e) => {
                return Err(e);
            },
        }
        let event = match map_event(self.event) {
            Some(e) => e,
            None => {
                return Err(Error::OtherWithContext(String::from_str("Invalid event type")));
            },
        };
        let created = match self.created {
            Some(c) => c,
            None => {
                return Err(Error::InvalidConversion);
            },
        };
        let original_signature = match self.signature {
            Some(s) => s,
            None => {
                return Err(Error::InvalidSignature);
            },
        };
        Ok(RequestPayload { sender: self.sender, event, created, original_signature, signature: Vec::new() })
    }
}

impl RequestPayload {
    /// The payload form of a relayed request that `check` (the relay
    /// signature's check) accepts: a `V1` payload dated and signed as the
    /// relayed request was.
    pub fn into_response_payload<G: Fn(&RequestPayload) -> bool>(self, check: &G) -> (r: Result<
        RequestResponsePayload,
        Error,
    >)
        requires
            forall|p: &RequestPayload| call_requires(*check, (p,)),
        ensures
            match r {
                Err(e) => e == Error::InvalidSignature && call_ensures(*check, (&self,), false),
                Ok(p) => call_ensures(*check, (&self,), true) && p@ == (PayloadView {
                    version: RequestResponsePayloadVersion::V1,
                    sender: self.sender@,
                    event: payload_event(self.event),
                    created: Some(self.created),
                    signature: Some(self.original_signature@),
                }),
            },
    {
        if !check(&self) {
            return Err(Error::InvalidSignature);
        }
        let event = match self.event {
            RequestEvent::Request => Event::Request,
            RequestEvent::Accept => Event::Accept,
            RequestEvent::Remove => Event::Remove,
            RequestEvent::Reject => Event::Reject,
            RequestEvent::Retract => Event::Retract,
            RequestEvent::Block => Event::Block,
            RequestEvent::Unblock => Event::Unblock,
        };
        Ok(
            RequestResponsePayload {
                version: RequestResponsePayloadVersion::V1,
                sender: self.sender,
                event,
                created: Some(self.created),
                signature: Some(self.original_signature),
            },
        )
    }
}

} // verus!
