use warp_ipfs::identity::{IdentityDocument, IdentityDocumentVersion, IdentityMetadata};
use warp_ipfs::lookup::{lookup, lookup_discoveries, lookup_matches, LookupBy};

fn did_for(n: usize) -> String {
    format!("did:key:z6MkhaXgBZDvotDkL5257faiztiGiC2QtKLGpbnnEGta{:04}", n)
}

fn document(n: usize, name: &str) -> IdentityDocument {
    let did = did_for(n);
    let b = did.as_bytes();
    let short_id: [u8; 8] = b[b.len() - 8..].try_into().expect("eight bytes");
    IdentityDocument {
        username: name.to_string(),
        short_id,
        did,
        created: 1,
        modified: 1,
        status_message: None,
        metadata: IdentityMetadata::new(),
        version: IdentityDocumentVersion::V0,
        signature: None,
    }
}

fn names(v: &[IdentityDocument]) -> Vec<String> {
    v.iter().map(|d| d.username.clone()).collect()
}

#[test]
fn lookup_by_did() {
    let cache = vec![document(1, "Alice"), document(2, "Bob")];
    let own = document(9, "Me");
    assert_eq!(names(&lookup(&cache, &own, &LookupBy::DidKey(did_for(2)))), vec!["Bob"]);
    assert_eq!(names(&lookup(&cache, &own, &LookupBy::DidKey(did_for(9)))), vec!["Me"]);
    assert!(lookup(&cache, &own, &LookupBy::DidKey(did_for(3))).is_empty());
    let list = LookupBy::DidKeys(vec![did_for(1), did_for(9), did_for(4)]);
    assert_eq!(names(&lookup(&cache, &own, &list)), vec!["Alice", "Me"]);
}

#[test]
fn lookup_by_username() {
    let cache = vec![document(1, "Alice"), document(2, "alicia"), document(3, "Bob")];
    let own = document(9, "Me");
    assert_eq!(names(&lookup(&cache, &own, &LookupBy::Username("ALI".into()))), vec!["Alice", "alicia"]);
    assert_eq!(names(&lookup(&cache, &own, &LookupBy::Username("ob".into()))), vec!["Bob"]);
    // `name#code` matches the whole name and the short id, ignoring case.
    let code = String::from_utf8_lossy(&document(1, "x").short_id).to_uppercase();
    assert_eq!(names(&lookup(&cache, &own, &LookupBy::Username(format!("alice#{code}")))), vec!["Alice"]);
    assert!(lookup(&cache, &own, &LookupBy::Username(format!("alic#{code}"))).is_empty());
    // More than one `#`: a plain "contains" on the whole text.
    assert!(lookup(&cache, &own, &LookupBy::Username("a#b#c".into())).is_empty());
}

#[test]
fn lookup_by_short_id() {
    let cache = vec![document(1, "Alice"), document(2, "Bob")];
    let own = document(9, "Me");
    let short = String::from_utf8_lossy(&document(2, "x").short_id).to_string();
    assert_eq!(names(&lookup(&cache, &own, &LookupBy::ShortId(short.clone()))), vec!["Bob"]);
    assert!(lookup_matches(&LookupBy::ShortId(short), &document(2, "Bob")));
    assert!(!lookup_matches(&LookupBy::ShortId("nothing".into()), &document(2, "Bob")));
}

#[test]
fn the_same_identity_is_given_once() {
    let cache = vec![document(1, "Alice"), document(1, "Alice again")];
    let own = document(1, "Alice as me");
    assert_eq!(names(&lookup(&cache, &own, &LookupBy::DidKeys(vec![did_for(1)]))), vec!["Alice"]);
}

#[test]
fn lookups_start_discovering_other_identities() {
    let own = did_for(9);
    assert_eq!(lookup_discoveries(&own, &LookupBy::DidKey(did_for(1))), vec![did_for(1)]);
    assert!(lookup_discoveries(&own, &LookupBy::DidKey(did_for(9))).is_empty());
    assert_eq!(
        lookup_discoveries(&own, &LookupBy::DidKeys(vec![did_for(1), did_for(9), did_for(2)])),
        vec![did_for(1), did_for(2)]
    );
    assert!(lookup_discoveries(&own, &LookupBy::Username("a".into())).is_empty());
}
