use warp_ipfs::error::Error;
use warp_ipfs::request::{Event, RequestEvent, RequestPayload, RequestResponsePayload, RequestResponsePayloadVersion};

fn toy_sign(p: &RequestResponsePayload) -> Vec<u8> {
    assert!(p.signature.is_none());
    format!("{}|{:?}|{:?}|{:?}", p.sender, p.event, p.created, p.version).into_bytes()
}

fn toy_check(did: &String, p: &RequestResponsePayload, sig: &Vec<u8>) -> bool {
    *did == p.sender && toy_sign(p) == *sig
}

const SENDER: &str = "did:key:z6MkSender";

#[test]
fn payloads_are_signed_and_checked() {
    let p = RequestResponsePayload::new_unsigned(&SENDER.to_string(), Event::Request);
    assert_eq!(p.version, RequestResponsePayloadVersion::V1);
    assert!(p.created.is_none() && p.signature.is_none());
    assert_eq!(p.verify(&toy_check), Err(Error::InvalidSignature));
    let p = p.sign_at(77, &toy_sign).expect("signed");
    assert_eq!(p.created, Some(77));
    assert_eq!(p.verify(&toy_check), Ok(()));
    let mut tampered = p.unsigned();
    tampered.signature = p.signature.clone();
    tampered.event = Event::Block;
    assert_eq!(tampered.verify(&toy_check), Err(Error::InvalidSignature));
    let fresh = RequestResponsePayload::new(&SENDER.to_string(), Event::Accept, &toy_sign).expect("signed");
    assert_eq!(fresh.verify(&toy_check), Ok(()));
}

#[test]
fn conversion_to_the_relay_form() {
    let p = RequestResponsePayload::new_unsigned(&SENDER.to_string(), Event::Retract).sign_at(5, &toy_sign).expect("signed");
    let sig = p.signature.clone().expect("signed");
    let relay = p.into_request_payload(&toy_check).expect("converted");
    assert_eq!(relay.event, RequestEvent::Retract);
    assert_eq!(relay.created, 5);
    assert_eq!(relay.original_signature, sig);
    assert!(relay.signature.is_empty());

    let back = relay.into_response_payload(&|_: &RequestPayload| true).expect("converted");
    assert_eq!(back.event, Event::Retract);
    assert_eq!(back.created, Some(5));
    assert_eq!(back.signature, Some(sig));

    let response = RequestResponsePayload::new_unsigned(&SENDER.to_string(), Event::Response).sign_at(5, &toy_sign).expect("signed");
    assert_eq!(response.into_request_payload(&toy_check).err(), Some(Error::OtherWithContext("Invalid event type".into())));

    let unsigned = RequestResponsePayload::new_unsigned(&SENDER.to_string(), Event::Request);
    assert_eq!(unsigned.into_request_payload(&toy_check).err(), Some(Error::InvalidSignature));

    // Signed without a date (the original layout): it cannot be relayed.
    let mut undated = RequestResponsePayload::new_unsigned(&SENDER.to_string(), Event::Request);
    undated.signature = Some(toy_sign(&undated));
    assert_eq!(undated.into_request_payload(&toy_check).err(), Some(Error::InvalidConversion));

    let relay = RequestPayload {
        sender: SENDER.to_string(),
        event: RequestEvent::Block,
        created: 1,
        original_signature: vec![1],
        signature: vec![2],
    };
    assert_eq!(relay.into_response_payload(&|_: &RequestPayload| false).err(), Some(Error::InvalidSignature));
}
