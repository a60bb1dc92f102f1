use warp_ipfs::conversation::{ConversationDocument, ConversationType, GroupPermissions};
use warp_ipfs::did::DIDEd25519Reference;
use warp_ipfs::error::Error;
use warp_ipfs::key_exchange::{answer_key_request, take_key_response};
use warp_ipfs::keystore::Keystore;

fn did_of(seed: u8) -> String {
    DIDEd25519Reference([seed; 32]).to_did()
}

fn no_exclusions(_: &String, _: &String, _: &Vec<u8>) -> bool {
    false
}

fn group(members: &[u8]) -> ConversationDocument {
    ConversationDocument::new_at(
        &did_of(1),
        None,
        members.iter().map(|s| did_of(*s)).collect(),
        vec![],
        Some(8),
        0,
        ConversationType::Group,
        GroupPermissions::new(),
        None,
        None,
        0,
        None,
        None,
        &|_: &[u8; 32], _: &Vec<Option<Vec<u8>>>, _: &Vec<u8>| true,
        &|_: &Vec<Option<Vec<u8>>>| vec![],
    )
    .expect("created")
}

fn xor(data: &[u8]) -> Vec<u8> {
    data.iter().map(|b| b ^ 0x5a).collect()
}

#[test]
fn answering_key_requests() {
    let g = group(&[2, 3]);
    let mut keystore = Keystore::new(8);
    let own = did_of(1);
    assert_eq!(
        answer_key_request(&g, &keystore, &own, &did_of(9), &no_exclusions, |c: &[u8]| Some(xor(c))),
        Err(Error::IdentityDoesntExist)
    );
    // No own key yet.
    assert_eq!(
        answer_key_request(&g, &keystore, &own, &did_of(2), &no_exclusions, |c: &[u8]| Some(xor(c))),
        Err(Error::PublicKeyDoesntExist)
    );
    keystore.insert(&own, &[1, 2, 3], |k: &[u8]| Ok(xor(k))).expect("inserted");
    assert_eq!(
        answer_key_request(&g, &keystore, &own, &did_of(2), &no_exclusions, |c: &[u8]| Some(xor(c))),
        Ok(vec![1, 2, 3])
    );
}

#[test]
fn taking_key_responses() {
    let g = group(&[2, 3]);
    let mut keystore = Keystore::new(8);
    let sender = did_of(2);
    assert_eq!(
        take_key_response(&g, &mut keystore, &did_of(9), &[1], &no_exclusions, |k: &[u8]| Ok(xor(k)), |k: &[u8]| Ok(xor(k))),
        Err(Error::IdentityDoesntExist)
    );
    assert_eq!(
        take_key_response(&g, &mut keystore, &sender, &[1], &no_exclusions, |_: &[u8]| Err(Error::DecryptionError), |k: &[u8]| Ok(xor(k))),
        Err(Error::DecryptionError)
    );
    assert!(!keystore.exist(&sender));
    let wrapped = xor(&[4, 5, 6]);
    take_key_response(&g, &mut keystore, &sender, &wrapped, &no_exclusions, |k: &[u8]| Ok(xor(k)), |k: &[u8]| Ok(xor(k)))
        .expect("stored");
    assert_eq!(keystore.get_latest(&sender, |c: &[u8]| Some(xor(c))), Ok(vec![4, 5, 6]));
    // The same key again is refused by the keystore.
    assert_eq!(
        take_key_response(&g, &mut keystore, &sender, &wrapped, &no_exclusions, |k: &[u8]| Ok(xor(k)), |k: &[u8]| Ok(xor(k))),
        Err(Error::PublicKeyInvalid)
    );
}
