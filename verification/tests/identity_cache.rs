use warp_ipfs::cache::IdentityCache;
use warp_ipfs::error::Error;
use warp_ipfs::identity::{
    text_byte_len, IdentityDocument, IdentityDocumentVersion, IdentityMetadata, IdentityStatus, Platform,
};

/// A stand-in for an Ed25519 signature: a digest of the fields the signature
/// covers, tied to the signer's DID.
fn toy_signature(p: &IdentityDocument) -> Vec<u8> {
    let text = format!(
        "{}|{}|{:?}|{}|{}|{:?}|{:?}",
        p.did, p.username, p.short_id, p.created, p.modified, p.status_message, p.signature
    );
    let mut acc: Vec<u8> = vec![0u8; 16];
    for (i, b) in text.bytes().enumerate() {
        acc[i % 16] = acc[i % 16].wrapping_mul(31).wrapping_add(b);
    }
    // The metadata is blanked out of what is signed.
    assert!(p.metadata.profile_picture.is_none() && p.metadata.platform.is_none());
    acc
}

fn toy_check(p: &IdentityDocument, s: &Vec<u8>) -> bool {
    toy_signature(p) == *s
}

fn did_for(n: usize) -> String {
    format!("did:key:z6MkhaXgBZDvotDkL5257faiztiGiC2QtKLGpbnnEGta{:04}", n)
}

fn short_id_of(did: &str) -> [u8; 8] {
    let b = did.as_bytes();
    b[b.len() - 8..].try_into().expect("eight bytes")
}

fn random_document(n: usize) -> IdentityDocument {
    let did = did_for(n);
    let document = IdentityDocument {
        username: format!("User{:04}", n),
        short_id: short_id_of(&did),
        did,
        created: 1_700_000_000_000_000_000,
        modified: 1_700_000_000_000_000_000,
        status_message: None,
        metadata: IdentityMetadata::new(),
        version: IdentityDocumentVersion::V0,
        signature: None,
    };
    let document = document.sign_at(1_700_000_000_000_000_001, &toy_signature).expect("valid");
    document.verify(&toy_check).expect("valid");
    document
}

fn same_document(a: &IdentityDocument, b: &IdentityDocument) -> bool {
    a.same(b)
        && a.username == b.username
        && a.status_message == b.status_message
        && a.signature == b.signature
        && a.modified == b.modified
        && a.metadata.same(&b.metadata)
}

fn pregenerated_cache(n: usize) -> IdentityCache {
    let mut cache = IdentityCache::new();
    for i in 0..n {
        let document = random_document(100 + i);
        cache.insert(&document, &toy_check).expect("inserted");
    }
    cache
}

#[test]
fn new_identity_cache() {
    let mut cache = pregenerated_cache(0);
    let document = random_document(1);
    assert!(cache.insert(&document, &toy_check).expect("inserted").is_none());
    let existing_document = cache.get(&document.did, &toy_check).expect("present");
    assert!(same_document(&existing_document, &document));
}

#[test]
fn update_existing_identity_cache() {
    let mut cache = pregenerated_cache(0);
    let document = random_document(2);
    let old_doc = document.copy();
    cache.insert(&document, &toy_check).expect("inserted");

    let mut document = document;
    document.username = String::from("NewName");
    let document = document.sign(&toy_signature).expect("valid");

    let old_document = cache.insert(&document, &toy_check).expect("inserted").expect("previous document provided");
    assert!(same_document(&old_doc, &old_document));
    let now = cache.get(&document.did, &toy_check).expect("present");
    assert_eq!(now.username, "NewName");
}

#[test]
fn remove_identity_from_cache() {
    let mut cache = pregenerated_cache(10);
    let list = cache.list(&toy_check);
    assert_eq!(list.len(), 10);
    let chosen = &list[6];
    cache.remove(&chosen.did).expect("removed");
    assert_eq!(cache.get(&chosen.did, &toy_check).err(), Some(Error::IdentityDoesntExist));
    assert_eq!(cache.remove(&chosen.did), Err(Error::IdentityDoesntExist));
    assert_eq!(cache.list(&toy_check).len(), 9);
}

#[test]
fn unchanged_document_is_not_replaced() {
    let mut cache = IdentityCache::new();
    let document = random_document(3);
    cache.insert(&document, &toy_check).expect("inserted");
    // Signed again, nothing shown changed: the cache keeps what it has.
    let again = document.copy().sign_at(1_800_000_000_000_000_000, &toy_signature).expect("valid");
    assert!(cache.insert(&again, &toy_check).expect("valid").is_none());
    assert_eq!(cache.get(&document.did, &toy_check).expect("present").modified, document.modified);
}

#[test]
fn invalid_document_is_refused() {
    let mut cache = IdentityCache::new();
    let mut document = random_document(4);
    document.username = String::from("Tampered");
    assert_eq!(cache.insert(&document, &toy_check).err(), Some(Error::InvalidSignature));
    assert_eq!(cache.get(&document.did, &toy_check).err(), Some(Error::IdentityDoesntExist));
}

#[test]
fn verify_reports_each_invalid_field() {
    let base = random_document(5);

    let mut d = base.copy();
    d.username = String::new();
    assert_eq!(d.verify(&toy_check), Err(Error::IdentityInvalid));

    let mut d = base.copy();
    d.username = String::from("abc");
    assert_eq!(
        d.verify(&toy_check),
        Err(Error::InvalidLength { context: "username".into(), current: 3, minimum: Some(4), maximum: Some(32) })
    );

    let mut d = base.copy();
    d.username = "x".repeat(33);
    assert_eq!(
        d.verify(&toy_check),
        Err(Error::InvalidLength { context: "username".into(), current: 33, minimum: Some(4), maximum: Some(32) })
    );

    let mut d = base.copy();
    d.short_id[0] ^= 1;
    assert_eq!(d.verify(&toy_check), Err(Error::IdentityInvalid));

    let mut d = base.copy();
    d.status_message = Some("s".repeat(513));
    assert_eq!(
        d.verify(&toy_check),
        Err(Error::InvalidLength {
            context: "identity status message".into(),
            current: 513,
            minimum: None,
            maximum: Some(512)
        })
    );

    let mut d = base.copy();
    d.signature = None;
    assert_eq!(d.verify(&toy_check), Err(Error::InvalidSignature));

    let mut d = base.copy();
    d.signature = Some(String::from("0OIl"));
    assert_eq!(d.verify(&toy_check), Err(Error::Bs58Error));

    // Metadata is not covered by the signature.
    let mut d = base.copy();
    d.metadata.platform = Some(Platform::Desktop);
    d.metadata.status = Some(IdentityStatus::Online);
    assert_eq!(d.verify(&toy_check), Ok(()));
}

#[test]
fn username_length_counts_bytes() {
    assert_eq!(text_byte_len(&String::from("abcd")), 4);
    assert_eq!(text_byte_len(&String::from("ééé")), 6);
    let mut d = random_document(6);
    d.username = String::from("é");
    d = d.sign_at(1, &toy_signature).expect("valid");
    assert_eq!(
        d.verify(&toy_check),
        Err(Error::InvalidLength { context: "username".into(), current: 2, minimum: Some(4), maximum: Some(32) })
    );
}

#[test]
fn different_needs_a_change() {
    let a = random_document(7);
    let mut b = a.copy();
    assert!(!a.different(&b, &toy_check));
    b.status_message = Some(String::from("away for lunch"));
    let b = b.sign_at(2, &toy_signature).expect("valid");
    assert!(a.different(&b, &toy_check));
    let c = random_document(8);
    assert!(!a.different(&c, &toy_check));
}

#[test]
fn sign_keeps_metadata_and_stamps_the_date() {
    let mut d = random_document(9);
    d.metadata.profile_picture = Some(String::from("bafyreib"));
    let d = d.sign_at(42, &toy_signature).expect("valid");
    assert_eq!(d.modified, 42);
    assert_eq!(d.metadata.profile_picture.as_deref(), Some("bafyreib"));
    let expected = bs58::encode(toy_signature(&d.unsigned())).into_string();
    assert_eq!(d.signature, Some(expected));
}

#[test]
fn validate_identity_checks() {
    let doc = random_document(1);
    assert_eq!(doc.validate_identity(), Ok(()));

    let mut short = random_document(2);
    short.username = "abc".to_string();
    assert_eq!(
        short.validate_identity(),
        Err(Error::InvalidLength { context: "username".to_string(), current: 3, minimum: Some(4), maximum: Some(64) })
    );

    // 40 characters: too long for a document, fine for this check
    let mut long = random_document(3);
    long.username = "x".repeat(40);
    assert_eq!(long.validate_identity(), Ok(()));
    long.username = "y".repeat(65);
    assert!(matches!(long.validate_identity(), Err(Error::InvalidLength { current: 65, .. })));

    let mut wrong_id = random_document(4);
    wrong_id.short_id = [0u8; 8];
    assert_eq!(wrong_id.validate_identity(), Err(Error::PublicKeyInvalid));

    let mut status = random_document(5);
    status.status_message = Some("s".repeat(511));
    assert_eq!(status.validate_identity(), Ok(()));
    status.status_message = Some("s".repeat(512));
    assert_eq!(
        status.validate_identity(),
        Err(Error::InvalidLength { context: "status".to_string(), current: 512, minimum: None, maximum: Some(512) })
    );
}
