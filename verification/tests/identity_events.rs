use warp_ipfs::conversation::{ConversationDocument, ConversationType, GroupPermissions};
use warp_ipfs::identity_events::{conversation_action, identity_event_plan, ConversationAction, IdentityEventKind};

const OWN: &str = "did:key:z6MkOwner";
const BOB: &str = "did:key:z6MkBob";
const EVE: &str = "did:key:z6MkEve";

fn conversation(id: u128, creator: Option<&str>, kind: ConversationType, members: &[&str]) -> ConversationDocument {
    ConversationDocument::new_at(
        &OWN.to_string(),
        Some("crew".into()),
        members.iter().map(|m| m.to_string()).collect(),
        vec![],
        Some(id),
        0,
        kind,
        GroupPermissions::new(),
        None,
        None,
        0,
        creator.map(|c| c.to_string()),
        None,
        &|_: &[u8; 32], _: &Vec<Option<Vec<u8>>>, _: &Vec<u8>| true,
        &|_: &Vec<Option<Vec<u8>>>| vec![1],
    )
    .expect("created")
}

fn accept_all(_: &String, _: &String, _: &Vec<u8>) -> bool {
    true
}

#[test]
fn blocking_ends_direct_conversations_and_own_group_membership() {
    let list = vec![
        conversation(1, None, ConversationType::Direct, &[BOB]),
        conversation(2, Some(OWN), ConversationType::Group, &[BOB, EVE]),
        conversation(3, Some(EVE), ConversationType::Group, &[BOB]),
        conversation(4, Some(OWN), ConversationType::Group, &[EVE]),
    ];
    let plan = identity_event_plan(IdentityEventKind::Blocked, &OWN.to_string(), &BOB.to_string(), &list, &accept_all, true);
    assert_eq!(
        plan,
        vec![
            (1, ConversationAction::Delete),
            (2, ConversationAction::RemoveRecipient { restrict: true }),
            (3, ConversationAction::Keep),
            (4, ConversationAction::Keep),
        ]
    );
    // Being blocked by someone one does not block removes without restricting.
    let plan =
        identity_event_plan(IdentityEventKind::BlockedBy, &OWN.to_string(), &BOB.to_string(), &list, &accept_all, false);
    assert_eq!(plan[1], (2, ConversationAction::RemoveRecipient { restrict: false }));
}

#[test]
fn unblocking_lifts_restrictions_in_own_groups() {
    let mut own = conversation(5, Some(OWN), ConversationType::Group, &[EVE]);
    own.restrict.push(BOB.to_string());
    let mut other = conversation(6, Some(EVE), ConversationType::Group, &[EVE]);
    other.restrict.push(BOB.to_string());
    let plain = conversation(7, Some(OWN), ConversationType::Group, &[EVE]);
    let plan = identity_event_plan(
        IdentityEventKind::Unblocked,
        &OWN.to_string(),
        &BOB.to_string(),
        &vec![own, other, plain],
        &accept_all,
        false,
    );
    assert_eq!(
        plan,
        vec![(5, ConversationAction::RemoveRestricted), (6, ConversationAction::Keep), (7, ConversationAction::Keep)]
    );
}

#[test]
fn friendship_changes_touch_no_conversation() {
    let direct = conversation(8, None, ConversationType::Direct, &[BOB]);
    for kind in [IdentityEventKind::FriendAdded, IdentityEventKind::FriendRemoved, IdentityEventKind::Other] {
        assert_eq!(
            conversation_action(kind, &OWN.to_string(), &BOB.to_string(), &direct, &vec![BOB.to_string()], true),
            ConversationAction::Keep
        );
    }
}
