use warp_ipfs::cache::IdentityCache;
use warp_ipfs::error::Error;
use warp_ipfs::identity::{IdentityDocument, IdentityDocumentVersion, IdentityMetadata, IdentityStatus, Platform};
use warp_ipfs::identity_updates::{
    answer_identity_request, auto_push_interval, identity_platform_of, identity_status_of, identity_update_plan, keep_image,
    take_identity, IdentityPush, ImageFetch, Received, RequestOption, UpdateEvents,
};

fn toy_signature(p: &IdentityDocument) -> Vec<u8> {
    let text = format!("{}|{}|{}|{:?}", p.did, p.username, p.modified, p.status_message);
    text.into_bytes()
}

fn toy_check(p: &IdentityDocument, s: &Vec<u8>) -> bool {
    toy_signature(p) == *s
}

fn did_for(n: usize) -> String {
    format!("did:key:z6MkhaXgBZDvotDkL5257faiztiGiC2QtKLGpbnnEGta{:04}", n)
}

fn document(n: usize, name: &str, picture: Option<&str>, banner: Option<&str>) -> IdentityDocument {
    let did = did_for(n);
    let b = did.as_bytes();
    let short_id: [u8; 8] = b[b.len() - 8..].try_into().expect("eight bytes");
    let mut metadata = IdentityMetadata::new();
    metadata.profile_picture = picture.map(|c| c.to_string());
    metadata.profile_banner = banner.map(|c| c.to_string());
    IdentityDocument {
        username: name.to_string(),
        short_id,
        did,
        created: 1,
        modified: 1,
        status_message: None,
        metadata,
        version: IdentityDocumentVersion::V0,
        signature: None,
    }
    .sign_at(2, &toy_signature)
    .expect("signed")
}

#[test]
fn answering_identity_requests() {
    assert!(matches!(answer_identity_request(&RequestOption::Identity)[..], [IdentityPush::Identity]));
    let both = answer_identity_request(&RequestOption::Image { banner: Some("b".into()), picture: Some("p".into()) });
    assert!(matches!(&both[..], [IdentityPush::Banner(b), IdentityPush::Picture(p)] if b == "b" && p == "p"));
    assert!(answer_identity_request(&RequestOption::Image { banner: None, picture: None }).is_empty());
}

#[test]
fn taking_received_identities() {
    let mut cache = IdentityCache::new();
    let doc = document(1, "Alice", None, None);
    let sender = doc.did.clone();

    // sent by someone else
    let other = did_for(2);
    assert!(matches!(
        take_identity(&mut cache, &other, &doc, &None, &toy_check),
        Err(Error::OtherWithContext(t)) if t == "Payload doesnt match identity"
    ));
    // this node's own identity
    assert!(matches!(take_identity(&mut cache, &sender, &doc, &Some(sender.clone()), &toy_check), Ok(Received::Own)));
    assert!(cache.get(&sender, &toy_check).is_err());
    // a forged document
    let mut forged = document(1, "Alice", None, None);
    forged.username = "Mallory".into();
    assert_eq!(take_identity(&mut cache, &sender, &forged, &None, &toy_check).err(), Some(Error::InvalidSignature));

    assert!(matches!(take_identity(&mut cache, &sender, &doc, &None, &toy_check), Ok(Received::New)));
    assert!(matches!(
        take_identity(&mut cache, &sender, &doc, &None, &toy_check),
        Ok(Received::Known { changed: false, .. })
    ));
    let renamed = document(1, "Alicia", None, None);
    match take_identity(&mut cache, &sender, &renamed, &None, &toy_check) {
        Ok(Received::Known { previous, changed }) => {
            assert!(changed);
            assert_eq!(previous.username, "Alice");
        }
        _ => panic!("known and changed"),
    }
    assert_eq!(cache.get(&sender, &toy_check).expect("cached").username, "Alicia");
}

#[test]
fn what_follows_a_new_identity() {
    let doc = document(3, "Carol", Some("pic"), Some("ban"));
    let plan = identity_update_plan(&Received::New, &doc, UpdateEvents::Enabled, false, false, false);
    assert!(plan.discover && plan.announce);
    assert!(matches!(&plan.fetch[..],
        [ImageFetch::Request { banner: Some(b), picture: Some(p), required: true }] if b == "ban" && p == "pic"));

    let plan = identity_update_plan(&Received::New, &doc, UpdateEvents::FriendsOnly, true, false, true);
    assert!(!plan.announce);
    assert!(matches!(&plan.fetch[..],
        [ImageFetch::Bitswap { cid: p, announce: true }, ImageFetch::Bitswap { cid: b, announce: true }]
            if p == "pic" && b == "ban"));

    let plan = identity_update_plan(&Received::New, &doc, UpdateEvents::FriendsOnly, true, false, false);
    assert!(plan.fetch.is_empty());
    let plan = identity_update_plan(&Received::New, &doc, UpdateEvents::Enabled, true, true, false);
    assert!(!plan.discover && plan.fetch.is_empty());
    let plan = identity_update_plan(&Received::Own, &doc, UpdateEvents::Enabled, true, false, true);
    assert!(!plan.discover && !plan.announce && plan.fetch.is_empty());
}

#[test]
fn what_follows_a_changed_identity() {
    let before = document(4, "Dave", Some("pic1"), Some("ban"));
    let after = document(4, "Dave", Some("pic2"), Some("ban"));
    let received = Received::Known { previous: before, changed: true };
    let plan = identity_update_plan(&received, &after, UpdateEvents::Enabled, false, false, false);
    assert!(plan.announce);
    assert!(matches!(&plan.fetch[..],
        [ImageFetch::Request { banner: None, picture: Some(p), required: false }] if p == "pic2"));
    let plan = identity_update_plan(&received, &after, UpdateEvents::Disabled, true, false, true);
    assert!(!plan.announce);
    assert!(matches!(&plan.fetch[..], [ImageFetch::Bitswap { cid, announce: false }] if cid == "pic2"));

    let unchanged = Received::Known { previous: document(4, "Dave", None, None), changed: false };
    let plan = identity_update_plan(&unchanged, &after, UpdateEvents::Enabled, false, false, true);
    assert!(plan.discover && !plan.announce && plan.fetch.is_empty());
}

#[test]
fn keeping_received_images() {
    let mut cache = IdentityCache::new();
    let doc = document(5, "Erin", Some("pic"), None);
    cache.insert(&doc, &toy_check).expect("cached");
    assert_eq!(keep_image(&cache, &doc.did, &"pic".to_string(), &toy_check), Ok(true));
    assert_eq!(keep_image(&cache, &doc.did, &"other".to_string(), &toy_check), Ok(false));
    assert_eq!(keep_image(&cache, &did_for(6), &"pic".to_string(), &toy_check), Err(Error::IdentityDoesntExist));
}

#[test]
fn presence_of_own_and_other_identities() {
    let mut own = document(1, "Alice", None, None);
    // One's own presence is the one set in the document, online by default.
    assert_eq!(identity_status_of(&own, &did_for(1), IdentityStatus::Offline, None), IdentityStatus::Online);
    own.metadata.status = Some(IdentityStatus::Busy);
    assert_eq!(identity_status_of(&own, &did_for(1), IdentityStatus::Offline, None), IdentityStatus::Busy);
    // Another identity that is not connected is offline, whatever its document says.
    assert_eq!(
        identity_status_of(&own, &did_for(2), IdentityStatus::Offline, Some(IdentityStatus::Away)),
        IdentityStatus::Offline
    );
    // A connected one shows the presence its document sets, else the connection's.
    assert_eq!(
        identity_status_of(&own, &did_for(2), IdentityStatus::Online, Some(IdentityStatus::Away)),
        IdentityStatus::Away
    );
    assert_eq!(identity_status_of(&own, &did_for(2), IdentityStatus::Online, None), IdentityStatus::Online);
}

#[test]
fn platform_of_other_identities() {
    assert_eq!(identity_platform_of(IdentityStatus::Offline, Some(Platform::Mobile)).ok(), Some(Platform::Unknown));
    assert_eq!(identity_platform_of(IdentityStatus::Online, Some(Platform::Mobile)).ok(), Some(Platform::Mobile));
    assert!(matches!(identity_platform_of(IdentityStatus::Away, None), Err(Error::IdentityDoesntExist)));
}

#[test]
fn automatic_pushes_are_at_least_five_minutes_apart() {
    assert_eq!(auto_push_interval(None), 300000);
    assert_eq!(auto_push_interval(Some(1000)), 300000);
    assert_eq!(auto_push_interval(Some(300000)), 300000);
    assert_eq!(auto_push_interval(Some(600000)), 600000);
}
