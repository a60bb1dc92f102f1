use warp_ipfs::conversation::{ConversationDocument, ConversationType, GroupPermissions};
use warp_ipfs::error::Error;
use warp_ipfs::group_admin::{add_recipient, add_restricted, remove_recipient, remove_restricted, rename};

const OWN: &str = "did:key:z6MkOwner";
const BOB: &str = "did:key:z6MkBob";
const EVE: &str = "did:key:z6MkEve";

fn group(creator: Option<&str>, kind: ConversationType) -> ConversationDocument {
    ConversationDocument::new_at(
        &OWN.to_string(),
        Some("crew".into()),
        vec![BOB.to_string()],
        vec![],
        Some(1),
        0,
        kind,
        GroupPermissions::new(),
        None,
        None,
        0,
        creator.map(|c| c.to_string()),
        None,
        &|_: &[u8; 32], _: &Vec<Option<Vec<u8>>>, _: &Vec<u8>| true,
        &|_: &Vec<Option<Vec<u8>>>| vec![1],
    )
    .expect("created")
}

#[test]
fn only_the_creator_administers_a_group() {
    let mut direct = group(None, ConversationType::Direct);
    assert_eq!(remove_recipient(&mut direct, &OWN.to_string(), &BOB.to_string()), Err(Error::InvalidConversation));
    let mut orphan = group(None, ConversationType::Group);
    assert_eq!(remove_recipient(&mut orphan, &OWN.to_string(), &BOB.to_string()), Err(Error::InvalidConversation));
    let mut foreign = group(Some(EVE), ConversationType::Group);
    assert_eq!(remove_recipient(&mut foreign, &OWN.to_string(), &BOB.to_string()), Err(Error::PublicKeyInvalid));
    assert_eq!(foreign.recipients, vec![BOB.to_string(), OWN.to_string()]);
}

#[test]
fn recipients() {
    let mut g = group(Some(OWN), ConversationType::Group);
    assert_eq!(remove_recipient(&mut g, &OWN.to_string(), &OWN.to_string()), Err(Error::PublicKeyInvalid));
    assert_eq!(remove_recipient(&mut g, &OWN.to_string(), &EVE.to_string()), Err(Error::IdentityDoesntExist));
    assert_eq!(add_recipient(&mut g, &OWN.to_string(), &BOB.to_string(), false, false), Err(Error::IdentityExist));
    assert_eq!(add_recipient(&mut g, &OWN.to_string(), &EVE.to_string(), false, true), Err(Error::PublicKeyIsBlocked));
    assert_eq!(add_recipient(&mut g, &OWN.to_string(), &OWN.to_string(), false, false), Err(Error::PublicKeyInvalid));
    assert_eq!(add_recipient(&mut g, &OWN.to_string(), &EVE.to_string(), false, false), Ok(()));
    assert_eq!(g.recipients, vec![BOB.to_string(), OWN.to_string(), EVE.to_string()]);
    assert_eq!(remove_recipient(&mut g, &OWN.to_string(), &BOB.to_string()), Ok(()));
    assert_eq!(g.recipients, vec![OWN.to_string(), EVE.to_string()]);

    // A member may add when the group lets members add.
    let mut g = group(Some(EVE), ConversationType::Group);
    assert_eq!(add_recipient(&mut g, &OWN.to_string(), &"did:key:z6MkCarol".to_string(), false, false), Err(Error::PublicKeyInvalid));
    assert_eq!(add_recipient(&mut g, &OWN.to_string(), &"did:key:z6MkCarol".to_string(), true, false), Ok(()));
}

#[test]
fn restrictions() {
    let mut g = group(Some(OWN), ConversationType::Group);
    assert_eq!(add_restricted(&mut g, &OWN.to_string(), &EVE.to_string(), false), Err(Error::PublicKeyIsntBlocked));
    assert_eq!(add_restricted(&mut g, &OWN.to_string(), &OWN.to_string(), true), Err(Error::PublicKeyInvalid));
    assert_eq!(add_restricted(&mut g, &OWN.to_string(), &EVE.to_string(), true), Ok(()));
    assert_eq!(g.restrict, vec![EVE.to_string()]);
    assert_eq!(remove_restricted(&mut g, &OWN.to_string(), &EVE.to_string(), true), Err(Error::PublicKeyIsBlocked));
    assert_eq!(remove_restricted(&mut g, &OWN.to_string(), &EVE.to_string(), false), Ok(()));
    assert!(g.restrict.is_empty());
}

#[test]
fn renaming() {
    let mut g = group(Some(OWN), ConversationType::Group);
    assert_eq!(rename(&mut g, &OWN.to_string(), "  new crew  "), Ok("new crew".to_string()));
    assert_eq!(g.name, Some("new crew".to_string()));
    assert_eq!(rename(&mut g, &OWN.to_string(), "   "), Ok(String::new()));
    assert_eq!(g.name, None);
    assert_eq!(
        rename(&mut g, &OWN.to_string(), &"n".repeat(256)),
        Err(Error::InvalidLength { context: "name".into(), current: 256, minimum: None, maximum: Some(255) })
    );
    let mut foreign = group(Some(EVE), ConversationType::Group);
    assert_eq!(rename(&mut foreign, &OWN.to_string(), "x"), Err(Error::PublicKeyInvalid));
    assert_eq!(foreign.name, Some("crew".to_string()));
}
