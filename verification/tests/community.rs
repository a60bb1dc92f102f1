use warp_ipfs::community::{
    CommunityChannelDocument, CommunityChannelType, CommunityDocument, CommunityInviteDocument, CommunityRoleDocument,
};
use warp_ipfs::did::DIDEd25519Reference;
use warp_ipfs::error::Error;

fn did_of(seed: u8) -> String {
    DIDEd25519Reference([seed; 32]).to_did()
}

fn toy_sign(key: &[u8; 32], fields: &Vec<Option<Vec<u8>>>) -> Vec<u8> {
    let mut acc = vec![0u8; 64];
    let mut n = 0usize;
    for f in fields.iter().flatten() {
        for b in f {
            acc[n % 64] = acc[n % 64].wrapping_mul(13).wrapping_add(*b);
            n += 1;
        }
    }
    acc[0] ^= key[0];
    acc
}

fn toy_check(key: &[u8; 32], fields: &Vec<Option<Vec<u8>>>, sig: &Vec<u8>) -> bool {
    toy_sign(key, fields) == *sig
}

fn owned_by(seed: u8) -> CommunityDocument {
    let owner = did_of(seed);
    CommunityDocument::new_at(
        &owner,
        "club".to_string(),
        0x1234,
        1_700_000_000_000_000_000,
        &vec!["create_channels".to_string()],
        &|f: &Vec<Option<Vec<u8>>>| toy_sign(&[seed; 32], f),
    )
    .expect("created")
}

#[test]
fn new_community_is_signed_by_its_owner() {
    let doc = owned_by(3);
    assert_eq!(doc.owner, did_of(3));
    assert_eq!(doc.members, vec![did_of(3)]);
    assert_eq!(doc.permissions.len(), 1);
    assert_eq!(doc.permissions[0].0, "create_channels");
    assert!(doc.permissions[0].1.is_empty());
    assert_eq!(doc.verify(&toy_check), Ok(()));
    // The fields signed include the creation date as text.
    let fields = doc.signing_fields();
    assert_eq!(fields.len(), 3);
    assert_eq!(fields[2], Some(b"2023-11-14 22:13:20 UTC".to_vec()));
}

#[test]
fn community_signature_errors() {
    let mut doc = owned_by(3);
    doc.created += 1;
    assert_eq!(doc.verify(&toy_check), Err(Error::InvalidSignature));
    doc.sign(&|f: &Vec<Option<Vec<u8>>>| toy_sign(&[3; 32], f)).expect("signed");
    assert_eq!(doc.verify(&toy_check), Ok(()));
    let mut doc = owned_by(3);
    doc.signature = None;
    assert_eq!(doc.verify(&toy_check), Err(Error::InvalidSignature));
    let mut doc = owned_by(3);
    doc.signature = Some("0OIl".into());
    assert_eq!(doc.verify(&toy_check), Err(Error::Bs58Error));
    let mut doc = owned_by(3);
    doc.owner = "did:key:zNotAKey".into();
    assert_eq!(doc.verify(&toy_check), Err(Error::PublicKeyInvalid));
    let fresh = CommunityDocument::new(&did_of(4), "club".into(), &vec![], &|f: &Vec<Option<Vec<u8>>>| toy_sign(&[4; 32], f))
        .expect("created");
    assert_eq!(fresh.verify(&toy_check), Ok(()));
}

#[test]
fn permissions_and_invites() {
    let mut doc = owned_by(1);
    let member = did_of(2);
    let stranger = did_of(3);
    doc.members.push(member.clone());
    let mut role = CommunityRoleDocument::new_with(7, "mods".into());
    assert!(doc.has_permission(&doc.owner.clone(), &"create_channels".to_string()));
    // The permission is held by no role: a member does not have it.
    assert!(!doc.has_permission(&member, &"create_channels".to_string()));
    doc.permissions[0].1.push(7);
    role.members.push(member.clone());
    doc.roles.push((7, role));
    assert!(doc.has_permission(&member, &"create_channels".to_string()));
    // A permission nobody set is open to members, not to strangers.
    assert!(doc.has_permission(&member, &"send_messages".to_string()));
    assert!(!doc.has_permission(&stranger, &"send_messages".to_string()));

    let channel = CommunityChannelDocument::new_at(55, "general".into(), None, CommunityChannelType::Standard, 10);
    doc.channels.push((55, channel));
    assert!(doc.has_channel_permission(&member, &"send_messages".to_string(), 55));
    assert!(!doc.has_channel_permission(&member, &"send_messages".to_string(), 56));
    assert!(doc.has_channel_permission(&doc.owner.clone(), &"send_messages".to_string(), 56));

    doc.invites.push((1, CommunityInviteDocument::new_at(1, Some(stranger.clone()), 0, Some(100))));
    assert!(doc.has_valid_invite_at(&stranger, 100));
    assert!(!doc.has_valid_invite_at(&stranger, 101));
    assert!(!doc.has_valid_invite_at(&member, 50));
    doc.invites.push((2, CommunityInviteDocument::new(None, None)));
    assert!(doc.has_valid_invite(&member));

    let mut participants = doc.participants();
    assert_eq!(participants, vec![did_of(1), member.clone()]);
    doc.members.remove(0);
    participants = doc.participants();
    assert_eq!(participants, vec![member, did_of(1)]);
    let r = CommunityRoleDocument::new("x".into());
    assert!(r.members.is_empty());
    let c = CommunityChannelDocument::new("voice".into(), Some("talk".into()), CommunityChannelType::VoiceEnabled);
    assert_eq!(c.created, c.modified);
}
