use warp_ipfs::did::DIDEd25519Reference;
use warp_ipfs::error::Error;
use warp_ipfs::identity::IdentityStatus;
use warp_ipfs::root_document::RootDocument;

fn did_of(seed: u8) -> String {
    DIDEd25519Reference([seed; 32]).to_did()
}

fn toy_sign(key: &[u8; 32], d: &RootDocument) -> Vec<u8> {
    assert!(d.signature.is_none());
    let text = format!("{}|{}|{}|{:?}|{:?}|{:?}", d.identity, d.created, d.modified, d.friends, d.keystore, d.status);
    let mut acc = vec![0u8; 32];
    for (i, b) in text.bytes().enumerate() {
        acc[i % 32] = acc[i % 32].wrapping_mul(17).wrapping_add(b);
    }
    acc[0] ^= key[0];
    acc
}

fn toy_check(key: &[u8; 32], d: &RootDocument, sig: &Vec<u8>) -> bool {
    toy_sign(key, d) == *sig
}

fn root() -> RootDocument {
    RootDocument {
        identity: "bafyidentity".to_string(),
        created: 10,
        modified: 10,
        friends: Some("bafyfriends".to_string()),
        blocks: None,
        block_by: None,
        request: None,
        conversations: None,
        communities: None,
        keystore: None,
        file_index: None,
        status: Some(IdentityStatus::Online),
        signature: Some("stale".to_string()),
    }
}

#[test]
fn root_document_sign_then_verify() {
    let owner = did_of(3);
    let signed = root().sign_at(42, &|d: &RootDocument| toy_sign(&[3; 32], d)).unwrap();
    assert_eq!(signed.modified, 42);
    assert_eq!(signed.created, 10);
    assert!(signed.signature.is_some());
    assert_ne!(signed.signature, Some("stale".to_string()));
    assert_eq!(signed.verify(&Some(owner), &toy_check), Ok(()));
    // another key does not check out
    assert_eq!(signed.verify(&Some(did_of(4)), &toy_check), Err(Error::InvalidSignature));
}

#[test]
fn root_document_verify_errors() {
    let signed = root().sign_at(42, &|d: &RootDocument| toy_sign(&[3; 32], d)).unwrap();
    assert_eq!(signed.verify(&None, &toy_check), Err(Error::IdentityInvalid));
    assert_eq!(signed.verify(&Some("did:key:zNotAKey".to_string()), &toy_check), Err(Error::PublicKeyInvalid));

    let mut unsigned = root();
    unsigned.signature = None;
    assert_eq!(unsigned.verify(&Some(did_of(3)), &toy_check), Err(Error::InvalidSignature));

    let mut bad = root();
    bad.signature = Some("0OIl".to_string());
    assert_eq!(bad.verify(&Some(did_of(3)), &toy_check), Err(Error::Bs58Error));

    let mut tampered = signed;
    tampered.friends = None;
    assert_eq!(tampered.verify(&Some(did_of(3)), &toy_check), Err(Error::InvalidSignature));
}

#[test]
fn root_document_sign_now() {
    let signed = root().sign(&|d: &RootDocument| toy_sign(&[5; 32], d)).unwrap();
    assert_eq!(signed.verify(&Some(did_of(5)), &toy_check), Ok(()));
    assert!(signed.unsigned().signature.is_none());
}
