use warp_ipfs::conversation::direct_peer;
use warp_ipfs::conversation::{
    filter_excluded, ContentId, ConversationDocument, ConversationType, ConversationVersion,
    DirectConversationDocument, GroupConversationDocument, GroupPermissions, InnerDocument,
};
use warp_ipfs::did::DIDEd25519Reference;
use warp_ipfs::error::Error;
use warp_ipfs::membership::{
    accept_group_invite, apply_leave, check_new_direct, check_new_group, may_delete, LeaveOutcome,
};

fn did_of(seed: u8) -> String {
    DIDEd25519Reference([seed; 32]).to_did()
}

/// A stand-in for an Ed25519 signature over the SHA-256 of the fields: a
/// digest of the present fields mixed with the key.
fn toy_sign(key: &[u8; 32], fields: &Vec<Option<Vec<u8>>>) -> Vec<u8> {
    let mut acc = vec![0u8; 64];
    let mut n = 0usize;
    for f in fields.iter().flatten() {
        for b in f {
            acc[n % 64] = acc[n % 64].wrapping_mul(17).wrapping_add(*b);
            n += 1;
        }
    }
    for (i, k) in key.iter().enumerate() {
        acc[i] ^= *k;
    }
    acc
}

fn toy_check(key: &[u8; 32], fields: &Vec<Option<Vec<u8>>>, sig: &Vec<u8>) -> bool {
    toy_sign(key, fields) == *sig
}

/// Exclusions are signed by the leaving member: its key (from the DID) and
/// the context text.
fn exclusion_sig(seed: u8, context: &str) -> String {
    let mut sig: Vec<u8> = context.bytes().collect();
    sig.push(seed);
    bs58::encode(sig).into_string()
}

fn exclusion_check(did: &String, context: &String, sig: &Vec<u8>) -> bool {
    let key = DIDEd25519Reference::try_from_did(did).expect("ed25519 did");
    let mut want: Vec<u8> = context.bytes().collect();
    want.push(key.0[0]);
    want == *sig
}

fn signer_for(seed: u8) -> impl Fn(&Vec<Option<Vec<u8>>>) -> Vec<u8> {
    move |f: &Vec<Option<Vec<u8>>>| toy_sign(&[seed; 32], f)
}

fn group(own: u8, members: &[u8]) -> ConversationDocument {
    let own_did = did_of(own);
    let recipients: Vec<String> = members.iter().map(|s| did_of(*s)).collect();
    ConversationDocument::new_at(
        &own_did,
        Some("friends".to_string()),
        recipients,
        vec![],
        Some(77),
        0,
        ConversationType::Group,
        GroupPermissions::new(),
        Some(1000),
        None,
        5000,
        Some(own_did.clone()),
        None,
        &toy_check,
        &signer_for(own),
    )
    .expect("created")
}

#[test]
fn new_conversation_adds_the_caller_and_defaults_dates() {
    let own = did_of(1);
    let doc = ConversationDocument::new_at(
        &own,
        None,
        vec![did_of(2)],
        vec![],
        None,
        42,
        ConversationType::Direct,
        GroupPermissions::new(),
        None,
        None,
        9000,
        None,
        None,
        &toy_check,
        &signer_for(1),
    )
    .expect("created");
    assert_eq!(doc.id(), 42);
    assert_eq!(doc.recipients, vec![did_of(2), own.clone()]);
    assert_eq!((doc.created, doc.modified), (9000, 9000));
    assert_eq!(doc.version, ConversationVersion::V0);
    assert!(doc.signature.is_none());
    assert_eq!(doc.conversation_type(), ConversationType::Direct);
    assert_eq!(doc.verify(&toy_check), Ok(()));

    // The caller listed already is not added twice; a given creation date
    // is also the modification date.
    let doc = ConversationDocument::new_at(
        &own,
        Some("n".to_string()),
        vec![own.clone(), did_of(3)],
        vec![],
        Some(5),
        42,
        ConversationType::Direct,
        GroupPermissions::new(),
        Some(10),
        None,
        9000,
        None,
        None,
        &toy_check,
        &signer_for(1),
    )
    .expect("created");
    assert_eq!(doc.id(), 5);
    assert_eq!(doc.recipients.len(), 2);
    assert_eq!((doc.created, doc.modified), (10, 10));
    assert_eq!(doc.name(), Some("n".to_string()));
}

#[test]
fn group_created_by_the_caller_is_signed_and_checks_out() {
    let doc = group(1, &[2, 3]);
    assert!(doc.signature.is_some());
    assert_eq!(doc.verify(&toy_check), Ok(()));
    let expected = bs58::encode(toy_sign(&[1; 32], &doc.signing_fields(&did_of(1)))).into_string();
    assert_eq!(doc.signature, Some(expected));
}

#[test]
fn group_signature_errors() {
    let base = group(1, &[2]);

    let mut d = group(1, &[2]);
    d.restrict.push(did_of(9));
    assert_eq!(d.verify(&toy_check), Err(Error::InvalidSignature));

    let mut d = group(1, &[2]);
    d.creator = None;
    assert_eq!(d.verify(&toy_check), Err(Error::PublicKeyInvalid));

    let mut d = group(1, &[2]);
    d.creator = Some("did:key:not-a-key".to_string());
    assert_eq!(d.verify(&toy_check), Err(Error::PublicKeyInvalid));

    let mut d = group(1, &[2]);
    d.signature = None;
    assert_eq!(d.verify(&toy_check), Err(Error::InvalidSignature));

    let mut d = group(1, &[2]);
    d.signature = Some("0OIl".to_string());
    assert_eq!(d.verify(&toy_check), Err(Error::Bs58Error));

    // The icon's digest is covered.
    let mut d = group(1, &[2]);
    d.icon = Some(ContentId { text: "bafy".to_string(), digest: vec![1, 2, 3] });
    assert_eq!(d.verify(&toy_check), Err(Error::InvalidSignature));
    d.sign(&signer_for(1)).expect("signed");
    assert_eq!(d.verify(&toy_check), Ok(()));
    assert_eq!(base.verify(&toy_check), Ok(()));

    // A group without creator cannot be signed.
    let mut d = group(1, &[2]);
    d.creator = None;
    assert_eq!(d.sign(&signer_for(1)), Err(Error::PublicKeyInvalid));
}

#[test]
fn a_signature_that_comes_with_a_document_must_check_out() {
    let own = did_of(2);
    let creator = did_of(1);
    let good = group(1, &[2]);
    let result = ConversationDocument::new_at(
        &own,
        good.name.clone(),
        good.recipients.clone(),
        vec![],
        Some(good.id),
        0,
        ConversationType::Group,
        GroupPermissions::new(),
        Some(good.created),
        Some(good.modified),
        0,
        Some(creator.clone()),
        good.signature.clone(),
        &toy_check,
        &signer_for(2),
    );
    assert!(result.is_ok());
    let result = ConversationDocument::new_at(
        &own,
        None,
        vec![],
        vec![did_of(5)],
        Some(good.id),
        0,
        ConversationType::Group,
        GroupPermissions::new(),
        None,
        None,
        0,
        Some(creator),
        good.signature.clone(),
        &toy_check,
        &signer_for(2),
    );
    assert_eq!(result.err(), Some(Error::InvalidSignature));
}

#[test]
fn direct_conversation_ids_come_from_the_shared_topic() {
    let own = did_of(1);
    let other = did_of(2);
    let doc = ConversationDocument::new_direct(
        &own,
        [own.clone(), other.clone()],
        &|d: &String| Ok(d.len() as u128 * 1000),
        &toy_check,
        &signer_for(1),
    )
    .expect("created");
    assert_eq!(doc.id, other.len() as u128 * 1000);
    assert_eq!(doc.recipients, vec![own.clone(), other.clone()]);
    assert_eq!(doc.conversation_type, ConversationType::Direct);

    let refused = ConversationDocument::new_direct(
        &own,
        [own.clone(), own.clone()],
        &|_: &String| Ok(1),
        &toy_check,
        &signer_for(1),
    );
    assert_eq!(refused.err(), Some(Error::Other));

    let failed = ConversationDocument::new_direct(
        &own,
        [other.clone(), own.clone()],
        &|_: &String| Err(Error::PublicKeyInvalid),
        &toy_check,
        &signer_for(1),
    );
    assert_eq!(failed.err(), Some(Error::PublicKeyInvalid));
}

#[test]
fn new_group_uses_a_fresh_id_and_signs() {
    let own = did_of(4);
    let a = ConversationDocument::new_group(&own, None, vec![did_of(5)], vec![], GroupPermissions::new(), &toy_check, &signer_for(4))
        .expect("created");
    let b = ConversationDocument::new_group(&own, None, vec![did_of(5)], vec![], GroupPermissions::new(), &toy_check, &signer_for(4))
        .expect("created");
    assert_ne!(a.id, b.id);
    assert_eq!(a.creator, Some(own.clone()));
    assert_eq!(a.verify(&toy_check), Ok(()));
}

#[test]
fn valid_exclusions_leave_the_recipients() {
    let mut doc = group(1, &[2, 3, 4]);
    let did2 = did_of(2);
    let did3 = did_of(3);
    doc.excluded.push((did2.clone(), exclusion_sig(2, &format!("exclude {did2}"))));
    // Signed with the wrong key: it does not count.
    doc.excluded.push((did3.clone(), exclusion_sig(9, &format!("exclude {did3}"))));
    let remaining = doc.recipients(&exclusion_check);
    assert_eq!(remaining, vec![did_of(3), did_of(4), did_of(1)]);

    let inner = InnerDocument::Group(GroupConversationDocument {
        creator: did_of(1),
        participants: doc.recipients.clone(),
        messages: None,
        permissions: GroupPermissions::new(),
        excluded: doc.excluded.iter().map(|(a, b)| (a.clone(), b.clone())).collect(),
        restrict: vec![],
    });
    assert_eq!(inner.participants(&exclusion_check), remaining);
    let plain = filter_excluded(&vec![did2.clone(), did3.clone()], &vec![(did2.clone(), "0OIl".to_string())], &exclusion_check);
    assert_eq!(plain, vec![did2, did3]);
}

#[test]
fn inner_documents_track_their_message_list() {
    let mut inner = InnerDocument::Direct(DirectConversationDocument { participants: [did_of(1), did_of(2)], messages: None });
    assert_eq!(inner.messages_cid(), None);
    inner.set_messages_cid(Some("bafylist".to_string()));
    assert_eq!(inner.messages_cid(), Some("bafylist".to_string()));
    assert_eq!(inner.participants(&exclusion_check), vec![did_of(1), did_of(2)]);
}

#[test]
fn starting_a_direct_conversation() {
    let own = did_of(1);
    let peer = did_of(2);
    assert_eq!(check_new_direct(&own, &peer, true, &vec![], &exclusion_check), Err(Error::PublicKeyIsBlocked));
    assert_eq!(check_new_direct(&own, &own, false, &vec![], &exclusion_check), Err(Error::CannotCreateConversation));
    let existing = ConversationDocument::new_at(
        &own,
        None,
        vec![peer.clone()],
        vec![],
        Some(99),
        0,
        ConversationType::Direct,
        GroupPermissions::new(),
        None,
        None,
        0,
        None,
        None,
        &toy_check,
        &signer_for(1),
    )
    .expect("created");
    let grp = group(1, &[2]);
    assert_eq!(
        check_new_direct(&own, &peer, false, &vec![grp, existing], &exclusion_check),
        Err(Error::ConversationExist { conversation: 99 })
    );
    assert_eq!(check_new_direct(&own, &did_of(3), false, &vec![group(1, &[3])], &exclusion_check), Ok(()));
}

#[test]
fn starting_a_group() {
    let own = did_of(1);
    assert_eq!(
        check_new_group(&own, &None, &vec![did_of(2), own.clone()], &vec![false, false]),
        Err(Error::CannotCreateConversation)
    );
    assert_eq!(
        check_new_group(&own, &Some("   ".to_string()), &vec![did_of(2)], &vec![false]),
        Err(Error::InvalidLength { context: "name".into(), current: 0, minimum: Some(1), maximum: Some(255) })
    );
    assert_eq!(
        check_new_group(&own, &Some("x".repeat(256)), &vec![did_of(2)], &vec![false]),
        Err(Error::InvalidLength { context: "name".into(), current: 256, minimum: Some(1), maximum: Some(255) })
    );
    assert_eq!(
        check_new_group(&own, &Some(" crew ".to_string()), &vec![did_of(2), did_of(3), did_of(4)], &vec![false, true, false]),
        Ok(vec![did_of(2), did_of(4)])
    );
}

#[test]
fn invitations_to_groups() {
    let own = did_of(2);
    assert!(matches!(accept_group_invite(true, group(1, &[2]), &own, &toy_check), Ok(None)));
    assert!(matches!(accept_group_invite(false, group(1, &[3]), &own, &toy_check), Ok(None)));
    let mut g = group(1, &[2]);
    g.messages = Some("bafyold".to_string());
    let taken = accept_group_invite(false, g, &own, &toy_check).expect("valid").expect("taken");
    assert_eq!(taken.messages, None);
    let mut bad = group(1, &[2]);
    bad.restrict.push(did_of(7));
    assert_eq!(accept_group_invite(false, bad, &own, &toy_check).err(), Some(Error::InvalidSignature));
}

#[test]
fn who_may_delete() {
    let g = group(1, &[2]);
    assert!(may_delete(&g, &did_of(1), &exclusion_check));
    assert!(!may_delete(&g, &did_of(2), &exclusion_check));
    let d = ConversationDocument::new_at(
        &did_of(1),
        None,
        vec![did_of(2)],
        vec![],
        Some(3),
        0,
        ConversationType::Direct,
        GroupPermissions::new(),
        None,
        None,
        0,
        None,
        None,
        &toy_check,
        &signer_for(1),
    )
    .expect("created");
    assert!(may_delete(&d, &did_of(2), &exclusion_check));
    assert!(!may_delete(&d, &did_of(3), &exclusion_check));
}

#[test]
fn leaving_a_group() {
    let creator = did_of(1);
    let member = did_of(2);
    let signature = exclusion_sig(2, &format!("exclude {member}"));

    // Seen by the creator: it removes the member itself.
    let mut g = group(1, &[2]);
    assert_eq!(apply_leave(&mut g, &creator, &member, signature.clone(), &exclusion_check), Ok(LeaveOutcome::RemoveByCreator));
    assert!(g.excluded.is_empty());

    // Seen by another member: the exclusion is recorded once.
    let other = did_of(3);
    let mut g = group(1, &[2, 3]);
    assert_eq!(
        apply_leave(&mut g, &other, &member, signature.clone(), &exclusion_check),
        Ok(LeaveOutcome::Excluded { announce: true })
    );
    assert_eq!(g.excluded, vec![(member.clone(), signature.clone())]);
    assert_eq!(
        apply_leave(&mut g, &other, &member, signature.clone(), &exclusion_check),
        Ok(LeaveOutcome::Excluded { announce: false })
    );
    assert_eq!(g.excluded.len(), 1);

    // Refusals.
    let mut g = group(1, &[2, 3]);
    assert_eq!(
        apply_leave(&mut g, &other, &member, exclusion_sig(5, "exclude"), &exclusion_check),
        Err(Error::InvalidSignature)
    );
    assert_eq!(apply_leave(&mut g, &other, &member, "0OIl".to_string(), &exclusion_check), Err(Error::Bs58Error));
    assert_eq!(
        apply_leave(&mut g, &other, &creator, signature.clone(), &exclusion_check),
        Err(Error::OtherWithContext("Cannot remove the creator of the group".into()))
    );
    let stranger = did_of(8);
    let expected = format!("{stranger} does not belong to 00000000-0000-0000-0000-00000000004d");
    assert_eq!(
        apply_leave(&mut g, &other, &stranger, signature.clone(), &exclusion_check),
        Err(Error::OtherWithContext(expected))
    );
    let mut g = group(1, &[2]);
    g.creator = None;
    assert_eq!(
        apply_leave(&mut g, &other, &member, signature.clone(), &exclusion_check),
        Err(Error::OtherWithContext("Group conversation requires a creator".into()))
    );
    g.conversation_type = ConversationType::Direct;
    assert_eq!(
        apply_leave(&mut g, &other, &member, signature, &exclusion_check),
        Err(Error::OtherWithContext("Can only leave from a group conversation".into()))
    );
}

#[test]
fn direct_events_go_to_the_other_recipient() {
    let own = "did:key:z6MkOwner".to_string();
    let bob = "did:key:z6MkBob".to_string();
    assert_eq!(direct_peer(&vec![own.clone(), bob.clone()], &own), Ok(bob.clone()));
    assert_eq!(direct_peer(&vec![bob.clone(), own.clone()], &own), Ok(bob));
    assert_eq!(direct_peer(&vec![own.clone()], &own), Err(Error::InvalidConversation));
    assert_eq!(direct_peer(&vec![], &own), Err(Error::InvalidConversation));
}
