use warp_ipfs::error::Error;
use warp_ipfs::message::{FileAttachmentDocument, MessageType};
use warp_ipfs::messaging::{
    attachment_to_download, check_outgoing_lines,
    accept_edit, accept_new_message, locate_message, message_construct, pin_decision, plan_conversation_update,
    ConversationUpdateKind, MessageDirection, MessageEventKind, PinState, Reactions,
};

fn sign(did: &str, construct: &[u8]) -> Vec<u8> {
    let mut s = construct.to_vec();
    s.extend_from_slice(did.as_bytes());
    s
}

fn check(did: &String, construct: &Vec<u8>, sig: &Vec<u8>) -> bool {
    sign(did, construct) == *sig
}

const ALICE: &str = "did:key:z6MkAlice";
const BOB: &str = "did:key:z6MkBob";

#[test]
fn construct_is_ids_sender_and_lines() {
    let lines = vec!["hi".to_string(), "there".to_string()];
    let c = message_construct(1, 0x0102, &"ab".to_string(), &lines);
    let mut want = vec![0u8; 15];
    want.push(1);
    want.extend_from_slice(&[0u8; 14]);
    want.extend_from_slice(&[1, 2]);
    want.extend_from_slice(b"ab");
    want.extend_from_slice(b"hithere");
    assert_eq!(c, want);
}

#[test]
fn new_messages() {
    let recipients = vec![ALICE.to_string(), BOB.to_string()];
    let lines = vec!["hello".to_string()];
    let construct = message_construct(7, 3, &ALICE.to_string(), &lines);
    let sig = sign(ALICE, &construct);

    assert_eq!(
        accept_new_message(&vec![1, 7], &recipients, 7, 3, &ALICE.to_string(), &lines, &sig, MessageDirection::In, &check),
        Err(Error::MessageFound)
    );
    assert_eq!(
        accept_new_message(&vec![], &vec![BOB.to_string()], 7, 3, &ALICE.to_string(), &lines, &sig, MessageDirection::In, &check),
        Err(Error::IdentityDoesntExist)
    );
    assert_eq!(
        accept_new_message(&vec![], &recipients, 7, 3, &ALICE.to_string(), &lines, &vec![0], MessageDirection::In, &check),
        Err(Error::InvalidSignature)
    );
    assert_eq!(
        accept_new_message(&vec![1], &recipients, 7, 3, &ALICE.to_string(), &lines, &sig, MessageDirection::In, &check),
        Ok(MessageEventKind::MessageReceived { conversation_id: 3, message_id: 7 })
    );
    assert_eq!(
        accept_new_message(&vec![], &recipients, 7, 3, &ALICE.to_string(), &lines, &sig, MessageDirection::Out, &check),
        Ok(MessageEventKind::MessageSent { conversation_id: 3, message_id: 7 })
    );
}

#[test]
fn edits() {
    let lines = vec!["hello".to_string()];
    let edited = vec!["hello, world".to_string()];
    let sig = sign(ALICE, &message_construct(7, 3, &ALICE.to_string(), &lines));
    let new_sig = sign(ALICE, &message_construct(7, 3, &ALICE.to_string(), &edited));
    assert_eq!(
        accept_edit(7, 3, &ALICE.to_string(), &lines, &sig, &edited, &new_sig, &check),
        Ok(MessageEventKind::MessageEdited { conversation_id: 3, message_id: 7 })
    );
    assert_eq!(accept_edit(7, 3, &ALICE.to_string(), &lines, &new_sig, &edited, &new_sig, &check), Err(Error::InvalidSignature));
    assert_eq!(accept_edit(7, 3, &ALICE.to_string(), &lines, &sig, &edited, &sig, &check), Err(Error::InvalidSignature));
    assert_eq!(locate_message(&vec![(1, 3), (7, 4), (7, 3)], 3, 7), Ok(2));
    assert_eq!(locate_message(&vec![(1, 3)], 3, 7), Err(Error::MessageNotFound));
}

#[test]
fn pins() {
    assert_eq!(pin_decision(true, PinState::Pin, 1, 2), None);
    assert_eq!(pin_decision(false, PinState::Unpin, 1, 2), None);
    assert_eq!(
        pin_decision(false, PinState::Pin, 1, 2),
        Some((true, MessageEventKind::MessagePinned { conversation_id: 1, message_id: 2 }))
    );
    assert_eq!(
        pin_decision(true, PinState::Unpin, 1, 2),
        Some((false, MessageEventKind::MessageUnpinned { conversation_id: 1, message_id: 2 }))
    );
}

#[test]
fn reactions() {
    let mut r = Reactions::new();
    let thumbs = "👍".to_string();
    r.add(&thumbs, &ALICE.to_string()).expect("added");
    r.add(&thumbs, &BOB.to_string()).expect("added");
    assert_eq!(r.add(&thumbs, &ALICE.to_string()), Err(Error::ReactionExist));
    assert_eq!(r.reactors(&thumbs), vec![ALICE.to_string(), BOB.to_string()]);
    r.remove(&thumbs, &ALICE.to_string()).expect("removed");
    assert_eq!(r.reactors(&thumbs), vec![BOB.to_string()]);
    assert_eq!(r.remove(&thumbs, &ALICE.to_string()), Err(Error::ReactionDoesntExist));
    assert_eq!(r.remove(&"🎉".to_string(), &BOB.to_string()), Err(Error::ReactionDoesntExist));
    r.remove(&thumbs, &BOB.to_string()).expect("removed");
    assert!(r.reactors(&thumbs).is_empty());
    // The emoji is gone: adding it again starts a new list.
    r.add(&thumbs, &BOB.to_string()).expect("added");
    assert_eq!(r.reactors(&thumbs), vec![BOB.to_string()]);
}

#[test]
fn react_then_unreact_restores() {
    let mut r = Reactions::new();
    let thumbs = "👍".to_string();
    let party = "🎉".to_string();
    r.add(&thumbs, &ALICE.to_string()).expect("added");
    // a new emoji, added and taken back, leaves no trace
    r.add(&party, &BOB.to_string()).expect("added");
    r.remove(&party, &BOB.to_string()).expect("removed");
    assert!(r.reactors(&party).is_empty());
    assert_eq!(r.reactors(&thumbs), vec![ALICE.to_string()]);
    // a further reactor, added and taken back, leaves the list as it was
    r.add(&thumbs, &BOB.to_string()).expect("added");
    r.remove(&thumbs, &BOB.to_string()).expect("removed");
    assert_eq!(r.reactors(&thumbs), vec![ALICE.to_string()]);
}

#[test]
fn conversation_updates() {
    let recipients = vec![ALICE.to_string(), BOB.to_string()];
    let excluded = vec![(BOB.to_string(), "sig".to_string())];
    let name = Some("crew".to_string());

    let add = ConversationUpdateKind::AddParticipant { did: ALICE.to_string() };
    assert_eq!(plan_conversation_update(9, &recipients, &excluded, &name, &add).err(), Some(Error::IdentityExist));
    let add = ConversationUpdateKind::AddParticipant { did: "did:key:z6MkCarol".to_string() };
    let plan = plan_conversation_update(9, &recipients, &excluded, &name, &add).expect("plan");
    assert!(plan.store);
    assert_eq!(plan.excluded, excluded);
    assert_eq!(plan.event, Some(MessageEventKind::RecipientAdded { conversation_id: 9, recipient: "did:key:z6MkCarol".into() }));

    let remove = ConversationUpdateKind::RemoveParticipant { did: "did:key:z6MkCarol".to_string() };
    assert_eq!(plan_conversation_update(9, &recipients, &excluded, &name, &remove).err(), Some(Error::IdentityDoesntExist));
    let remove = ConversationUpdateKind::RemoveParticipant { did: BOB.to_string() };
    let plan = plan_conversation_update(9, &recipients, &excluded, &name, &remove).expect("plan");
    assert!(plan.excluded.is_empty());
    assert_eq!(plan.event, None);
    let remove = ConversationUpdateKind::RemoveParticipant { did: ALICE.to_string() };
    let plan = plan_conversation_update(9, &recipients, &excluded, &name, &remove).expect("plan");
    assert_eq!(plan.excluded, excluded);
    assert_eq!(plan.event, Some(MessageEventKind::RecipientRemoved { conversation_id: 9, recipient: ALICE.into() }));

    let same = ConversationUpdateKind::ChangeName { name: Some("  crew ".to_string()) };
    let plan = plan_conversation_update(9, &recipients, &excluded, &name, &same).expect("plan");
    assert!(!plan.store);
    assert_eq!(plan.event, None);
    let rename = ConversationUpdateKind::ChangeName { name: Some(" gang ".to_string()) };
    let plan = plan_conversation_update(9, &recipients, &excluded, &name, &rename).expect("plan");
    assert!(plan.store);
    assert_eq!(plan.event, Some(MessageEventKind::ConversationNameUpdated { conversation_id: 9, name: "gang".into() }));
    let long = ConversationUpdateKind::ChangeName { name: Some("n".repeat(256)) };
    assert_eq!(
        plan_conversation_update(9, &recipients, &excluded, &name, &long).err(),
        Some(Error::InvalidLength { context: "name".into(), current: 256, minimum: None, maximum: Some(255) })
    );
    let clear = ConversationUpdateKind::ChangeName { name: None };
    let plan = plan_conversation_update(9, &recipients, &excluded, &name, &clear).expect("plan");
    assert_eq!(plan.event, Some(MessageEventKind::ConversationNameUpdated { conversation_id: 9, name: String::new() }));

    let restrict = ConversationUpdateKind::AddRestricted { did: BOB.to_string() };
    let plan = plan_conversation_update(9, &recipients, &excluded, &name, &restrict).expect("plan");
    assert!(plan.store && plan.event.is_none());
    let settings = ConversationUpdateKind::ChangeSettings;
    let plan = plan_conversation_update(9, &recipients, &excluded, &name, &settings).expect("plan");
    assert_eq!(plan.event, Some(MessageEventKind::ConversationSettingsUpdated { conversation_id: 9 }));
}

#[test]
fn outgoing_lines_are_checked() {
    assert_eq!(check_outgoing_lines(&vec![]), Err(Error::EmptyMessage));
    assert_eq!(
        check_outgoing_lines(&vec!["   ".to_string(), String::new()]),
        Err(Error::InvalidLength { context: "message".into(), current: 0, minimum: Some(1), maximum: Some(4096) })
    );
    assert_eq!(check_outgoing_lines(&vec![" hi ".to_string(), String::new(), "there".to_string()]), Ok(7));
    assert_eq!(check_outgoing_lines(&vec!["x".repeat(4096)]), Ok(4096));
    assert_eq!(
        check_outgoing_lines(&vec!["x".repeat(4096), "y".to_string()]),
        Err(Error::InvalidLength { context: "message".into(), current: 4097, minimum: Some(1), maximum: Some(4096) })
    );
}

fn attachment(id: u128, name: &str) -> FileAttachmentDocument {
    FileAttachmentDocument {
        id,
        name: name.to_string(),
        size: 3,
        creation: 0,
        thumbnail: None,
        file_type: "text/plain".to_string(),
        data: format!("/ipfs/{id}"),
    }
}

#[test]
fn picking_an_attachment_to_download() {
    let files = vec![attachment(1, "a.txt"), attachment(2, "b.txt"), attachment(3, "b.txt")];
    assert_eq!(attachment_to_download(MessageType::Message, &files, "a.txt"), Err(Error::InvalidMessage));
    assert_eq!(attachment_to_download(MessageType::Attachment, &files, "b.txt"), Ok(1));
    assert_eq!(attachment_to_download(MessageType::Attachment, &files, "c.txt"), Err(Error::FileNotFound));
}

#[test]
fn emoji_keep_the_order_they_were_first_used_in() {
    let (a, b) = ("did:key:a".to_string(), "did:key:b".to_string());
    let (smile, heart, star) = (":)".to_string(), "<3".to_string(), "*".to_string());
    let mut r = Reactions::new();
    r.add(&heart, &a).unwrap();
    r.add(&smile, &a).unwrap();
    r.add(&heart, &b).unwrap();
    r.add(&star, &b).unwrap();
    assert_eq!(r.emojis(), vec![heart.clone(), smile.clone(), star.clone()]);
    // an emoji nobody reacts with any more leaves the order
    r.remove(&smile, &a).unwrap();
    assert_eq!(r.emojis(), vec![heart.clone(), star.clone()]);
    r.remove(&heart, &a).unwrap();
    assert_eq!(r.emojis(), vec![heart, star]);
}
