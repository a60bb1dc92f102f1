use warp_ipfs::did::DIDEd25519Reference;
use warp_ipfs::error::Error;
use warp_ipfs::message::{
    FileAttachmentDocument, MessageDocument, MessageDocumentBuilder, MessageType, SigningPayload,
};

fn did_of(seed: u8) -> String {
    DIDEd25519Reference([seed; 32]).to_did()
}

/// A stand-in for an Ed25519 signature: 64 bytes folded from the payload,
/// tied to the signer's key.
fn toy_sign(key: &[u8; 32], p: &SigningPayload) -> Vec<u8> {
    let mut acc = vec![0u8; 64];
    let mut n = 0usize;
    for f in p.fields.iter().flatten() {
        for b in f {
            acc[n % 64] = acc[n % 64].wrapping_mul(29).wrapping_add(*b);
            n += 1;
        }
    }
    for a in &p.attachments {
        for b in a {
            acc[n % 64] = acc[n % 64].wrapping_mul(29).wrapping_add(*b);
            n += 1;
        }
    }
    acc[0] ^= key[0];
    acc
}

fn signer_for(seed: u8) -> impl Fn(&SigningPayload) -> Vec<u8> {
    move |p: &SigningPayload| toy_sign(&[seed; 32], p)
}

fn toy_check(key: &[u8; 32], p: &SigningPayload, sig: &[u8; 64]) -> Option<bool> {
    Some(toy_sign(key, p)[..] == sig[..])
}

const NONCE: [u8; 12] = [7u8; 12];

/// A stand-in cipher: XOR with 0x5a, then the 12-byte nonce.
fn seal_with(plain: &[u8], nonce: Option<&[u8]>) -> Result<Vec<u8>, Error> {
    let mut out: Vec<u8> = plain.iter().map(|b| b ^ 0x5a).collect();
    out.extend_from_slice(nonce.unwrap_or(&NONCE));
    Ok(out)
}

fn seal(plain: &[u8]) -> Result<Vec<u8>, Error> {
    seal_with(plain, None)
}

fn open(c: &[u8]) -> Result<Vec<u8>, Error> {
    if c.len() < 12 {
        return Err(Error::DecryptionError);
    }
    Ok(c[..c.len() - 12].iter().map(|b| b ^ 0x5a).collect())
}

fn lines(v: &[&str]) -> Vec<String> {
    v.iter().map(|s| s.to_string()).collect()
}

fn built(seed: u8, text: &[&str]) -> MessageDocument {
    MessageDocumentBuilder::new()
        .set_message_id(11)
        .set_conversation_id(22)
        .set_sender(&did_of(seed))
        .set_date(1_000)
        .set_message(&lines(text), seal)
        .ok()
        .expect("set")
        .build(&did_of(seed), signer_for(seed))
        .ok()
        .expect("built")
}

fn attachment(id: u128, name: &str) -> FileAttachmentDocument {
    FileAttachmentDocument {
        id,
        name: name.to_string(),
        size: 3,
        creation: 5,
        thumbnail: None,
        file_type: "text/plain".to_string(),
        data: format!("bafy{id}"),
    }
}

#[test]
fn built_message_checks_out_and_opens() {
    let doc = built(1, &["hello", "world"]);
    assert_eq!(doc.id(), 11);
    assert_eq!(doc.conversation_id(), 22);
    assert_eq!(doc.sender(), did_of(1));
    assert_eq!(doc.date(), 1_000);
    assert!(doc.modified().is_some());
    assert_eq!(doc.verify(toy_check), Ok(()));
    assert_eq!(doc.message(open), Ok(lines(&["hello", "world"])));
    assert_eq!(doc.resolve_lines(toy_check, open), Ok(Some(lines(&["hello", "world"]))));
    assert_eq!(doc.nonce_from_message(), Ok(NONCE.to_vec()));

    let reference = doc.to_reference();
    assert_eq!(reference.id, 11);
    assert_eq!(reference.conversation_id, 22);
    assert_eq!(reference.sender, did_of(1));
    assert!(!reference.deleted);
}

#[test]
fn only_the_sender_builds_and_lines_are_bounded() {
    let other = MessageDocumentBuilder::new()
        .set_sender(&did_of(1))
        .set_message(&lines(&["hi"]), seal)
        .ok()
        .expect("set")
        .build(&did_of(2), signer_for(2));
    assert_eq!(other.err(), Some(Error::PublicKeyInvalid));

    let long = "x".repeat(4097);
    let refused = MessageDocumentBuilder::new().set_message(&vec![long], seal);
    assert_eq!(
        refused.err(),
        Some(Error::InvalidLength { context: "message".to_string(), current: 4097, minimum: None, maximum: Some(4096) })
    );
    // trimmed white space does not count
    let padded = format!("  {}  ", "y".repeat(4096));
    assert!(MessageDocumentBuilder::new().set_message(&vec![padded], seal).is_ok());
}

#[test]
fn verification_errors() {
    let blank = MessageDocument::empty_with(1, 2);
    assert_eq!(blank.verify(toy_check), Err(Error::InvalidSignature));
    assert_eq!(blank.message(open), Err(Error::MessageNotFound));
    assert_eq!(blank.nonce_from_message(), Err(Error::MessageNotFound));
    assert!(blank.to_reference().deleted);

    let doc = built(3, &["a"]);
    let tampered = doc.set_replied(99);
    assert_eq!(tampered.verify(toy_check), Err(Error::InvalidMessage));
    assert_eq!(tampered.resolve_lines(toy_check, open), Err(Error::InvalidMessage));

    let doc = built(3, &["a"]);
    assert_eq!(doc.verify(|_: &[u8; 32], _: &SigningPayload, _: &[u8; 64]| None), Err(Error::PublicKeyInvalid));
}

#[test]
fn attachments_and_lines_that_cannot_be_opened() {
    let doc = MessageDocument::empty_with(1, 2).set_sender(&did_of(4)).set_message_type(MessageType::Attachment);
    let doc = doc.add_attachment(attachment(1, "a.txt")).ok().expect("added");
    let doc = doc.add_attachment(attachment(1, "a.txt")).ok().expect("added");
    let doc = doc.add_attachment(attachment(2, "b.txt")).ok().expect("added");
    assert_eq!(doc.attachments().len(), 2);
    let doc = doc.remove_attachment(1);
    assert_eq!(doc.attachments().len(), 1);
    assert_eq!(doc.attachments()[0].id, 2);

    let signed = doc.set_message_at(&did_of(4), 9, |_: &[u8]| Ok(vec![1, 2, 3]), signer_for(4), &lines(&["x"]));
    let signed = signed.ok().expect("signed");
    assert_eq!(signed.modified(), Some(9));
    // An attachment whose lines cannot be opened simply has none.
    assert_eq!(signed.resolve_lines(toy_check, open), Ok(None));
}

#[test]
fn reactions_on_a_message() {
    let doc = MessageDocument::empty_with(1, 2);
    let doc = doc.add_reaction("👍".to_string(), did_of(1)).ok().expect("added");
    let doc = doc.add_reaction("👍".to_string(), did_of(2)).ok().expect("added");
    let refused = MessageDocument::empty_with(1, 2)
        .add_reaction("👍".to_string(), did_of(1))
        .ok()
        .expect("added")
        .add_reaction("👍".to_string(), did_of(1));
    assert_eq!(refused.err(), Some(Error::ReactionExist));
    assert_eq!(doc.reactions().len(), 1);
    assert_eq!(doc.reactions()[0].1, vec![did_of(1), did_of(2)]);

    // added and taken back: as before
    let doc = doc.add_reaction("🎉".to_string(), did_of(3)).ok().expect("added");
    let doc = doc.remove_reaction("🎉".to_string(), did_of(3)).ok().expect("removed");
    assert_eq!(doc.reactions().len(), 1);
    let doc = doc.add_reaction("👍".to_string(), did_of(3)).ok().expect("added");
    let doc = doc.remove_reaction("👍".to_string(), did_of(3)).ok().expect("removed");
    assert_eq!(doc.reactions()[0].1, vec![did_of(1), did_of(2)]);

    let missing = doc.remove_reaction("🎉".to_string(), did_of(1));
    assert_eq!(missing.err(), Some(Error::ReactionDoesntExist));
}

#[test]
fn too_many_reaction_kinds() {
    let mut doc = MessageDocument::empty_with(1, 2);
    for i in 0..31u32 {
        doc = doc.add_reaction(format!("e{i}"), did_of(1)).ok().expect("added");
    }
    assert_eq!(
        doc.add_reaction("new".to_string(), did_of(1)).err(),
        Some(Error::InvalidLength { context: "reactions".to_string(), current: 31, minimum: None, maximum: Some(30) })
    );
}

#[test]
fn edits_with_a_nonce() {
    let own = did_of(5);
    let doc = built(5, &["first"]);
    let fresh = [9u8; 12];

    // the same nonce again is refused
    let reused = built(5, &["first"]).set_message_with_nonce(
        &own, 50, seal_with, signer_for(5), toy_check, 40, &lines(&["second"]), None, Some(&NONCE),
    );
    assert_eq!(reused.err(), Some(Error::InvalidMessage));

    // this node's own edit is signed here
    let edited = doc
        .set_message_with_nonce(&own, 50, seal_with, signer_for(5), toy_check, 40, &lines(&["second"]), None, Some(&fresh))
        .ok()
        .expect("edited");
    assert_eq!(edited.modified(), Some(50));
    assert_eq!(edited.verify(toy_check), Ok(()));
    assert_eq!(edited.message(open), Ok(lines(&["second"])));
    assert_eq!(edited.nonce_from_message(), Ok(fresh.to_vec()));

    // an own edit that comes with a signature is refused
    let with_sig = built(5, &["first"]).set_message_with_nonce(
        &own, 50, seal_with, signer_for(5), toy_check, 40, &lines(&["second"]), Some(vec![0u8; 64]), Some(&fresh),
    );
    assert_eq!(with_sig.err(), Some(Error::InvalidMessage));

    // another sender's edit needs its signature
    let me = did_of(6);
    let unsigned = built(5, &["first"]).set_message_with_nonce(
        &me, 50, seal_with, signer_for(6), toy_check, 40, &lines(&["second"]), None, Some(&fresh),
    );
    assert_eq!(unsigned.err(), Some(Error::InvalidMessage));
    let short = built(5, &["first"]).set_message_with_nonce(
        &me, 50, seal_with, signer_for(6), toy_check, 40, &lines(&["second"]), Some(vec![1u8; 10]), Some(&fresh),
    );
    assert_eq!(short.err(), Some(Error::InvalidConversion));
    let bad = built(5, &["first"]).set_message_with_nonce(
        &me, 50, seal_with, signer_for(6), toy_check, 40, &lines(&["second"]), Some(vec![1u8; 64]), Some(&fresh),
    );
    assert_eq!(bad.err(), Some(Error::InvalidMessage));

    // the sender's own signature of the edit, made elsewhere, checks out
    let signature = edited.signature.as_ref().map(|s| s.0.to_vec()).expect("signed");
    let received = built(5, &["first"])
        .set_message_with_nonce(&me, 60, seal_with, signer_for(6), toy_check, 50, &lines(&["second"]), Some(signature), Some(&fresh))
        .ok()
        .expect("taken");
    assert_eq!(received.modified(), Some(50));
    assert_eq!(received.message(open), Ok(lines(&["second"])));

    // no content: no nonce to compare with
    let blank = MessageDocument::empty_with(1, 2).set_message_with_nonce(
        &own, 50, seal_with, signer_for(5), toy_check, 40, &lines(&["x"]), None, None,
    );
    assert_eq!(blank.err(), Some(Error::MessageNotFound));
}
